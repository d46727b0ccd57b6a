use vimyc::diag::Span;
use vimyc::lexer::{lex, lex_at};
use vimyc::token::TokenKind;

/// Token kinds, `Eof` stripped.
fn kinds(src: &str) -> Vec<TokenKind> {
    let (toks, _) = lex(src);
    toks.into_iter().map(|t| t.kind).filter(|k| *k != TokenKind::Eof).collect()
}

/// Token kinds paired with their (start, end) byte offsets, `Eof` stripped.
fn spans(src: &str) -> Vec<(TokenKind, u32, u32)> {
    let (toks, _) = lex(src);
    toks.into_iter()
        .filter(|t| t.kind != TokenKind::Eof)
        .map(|t| (t.kind, t.span.start, t.span.end))
        .collect()
}

fn ident(s: &str) -> TokenKind {
    TokenKind::Identifier(s.to_string())
}

fn float(s: &str) -> TokenKind {
    TokenKind::Float(s.to_string())
}

#[test]
fn empty_input_yields_nothing() {
    assert_eq!(kinds(""), vec![]);
}

#[test]
fn whitespace_only_yields_nothing() {
    assert_eq!(kinds("   \n\t  \r\n "), vec![]);
}

#[test]
fn single_digit() {
    assert_eq!(kinds("7"), vec![TokenKind::Number(7)]);
}

#[test]
fn multi_digit() {
    assert_eq!(kinds("2000"), vec![TokenKind::Number(2000)]);
}

#[test]
fn oversized_integer_reports_instead_of_panicking() {
    let (toks, diags) = lex("99999999999999999999");
    assert_eq!(diags.len(), 1, "{diags:?}");
    assert_eq!(toks[0].kind, TokenKind::Number(0));
}

#[test]
fn simple_identifier() {
    assert_eq!(kinds("cash"), vec![ident("cash")]);
}

#[test]
fn identifier_may_contain_digits() {
    assert_eq!(kinds("e1"), vec![ident("e1")]);
}

#[test]
fn several_identifiers_separated_by_space() {
    assert_eq!(kinds("cash powr proc"), vec![ident("cash"), ident("powr"), ident("proc")]);
}

#[test]
fn identifier_may_start_with_a_capital() {
    assert_eq!(kinds("Building Infantry"), vec![ident("Building"), ident("Infantry")]);
}

#[test]
fn keywords_are_case_sensitive() {
    assert_eq!(kinds("Rule Require"), vec![ident("Rule"), ident("Require")]);
}

#[test]
fn hyphen_between_letters_stays_in_the_identifier() {
    assert_eq!(kinds("ground-defense"), vec![ident("ground-defense")]);
}

#[test]
fn multiple_hyphens() {
    assert_eq!(kinds("attack-known-base-ground"), vec![ident("attack-known-base-ground")]);
}

#[test]
fn spaced_hyphen_is_subtraction() {
    assert_eq!(kinds("size - 1"), vec![ident("size"), TokenKind::Minus, TokenKind::Number(1)]);
}

#[test]
fn hyphen_followed_by_digit_is_subtraction() {
    assert_eq!(kinds("size-1"), vec![ident("size"), TokenKind::Minus, TokenKind::Number(1)]);
}

#[test]
fn hyphen_followed_by_letter_is_absorbed_even_when_wrong() {
    assert_eq!(kinds("size-one"), vec![ident("size-one")]);
}

#[test]
fn hyphen_after_a_paren_is_subtraction() {
    assert_eq!(
        kinds("aircraft-capacity() - 1"),
        vec![
            ident("aircraft-capacity"),
            TokenKind::LParen,
            TokenKind::RParen,
            TokenKind::Minus,
            TokenKind::Number(1),
        ]
    );
}

#[test]
fn leading_hyphen_is_an_operator() {
    assert_eq!(kinds("-5"), vec![TokenKind::Minus, TokenKind::Number(5)]);
}

#[test]
fn arithmetic_operators() {
    assert_eq!(
        kinds("+ - * /"),
        vec![TokenKind::Plus, TokenKind::Minus, TokenKind::Asterisk, TokenKind::Slash]
    );
}

#[test]
fn call_shaped_input() {
    assert_eq!(
        kinds("count(powr)"),
        vec![ident("count"), TokenKind::LParen, ident("powr"), TokenKind::RParen]
    );
}

#[test]
fn spans_cover_exactly_the_token_text() {
    assert_eq!(
        spans("size-1"),
        vec![(ident("size"), 0, 4), (TokenKind::Minus, 4, 5), (TokenKind::Number(1), 5, 6)]
    );
}

#[test]
fn spans_skip_leading_whitespace() {
    assert_eq!(spans("  cash"), vec![(ident("cash"), 2, 6)]);
}

#[test]
fn spans_are_byte_offsets_not_character_counts() {
    // The em-dash is three bytes, so `cash` starts at 4, not 2.
    assert_eq!(spans("\u{2014} cash"), vec![(ident("cash"), 4, 8)]);
}

#[test]
fn unknown_character_reports_and_continues() {
    let (toks, diags) = lex("cash @ powr");
    assert_eq!(diags.len(), 1, "expected exactly one diagnostic: {diags:?}");
    assert_eq!(diags[0].span, Span { start: 5, end: 6 });
    let ks: Vec<_> = toks.into_iter().map(|t| t.kind).filter(|k| *k != TokenKind::Eof).collect();
    assert_eq!(ks, vec![ident("cash"), ident("powr")]);
}

#[test]
fn several_unknown_characters_all_report() {
    let (_, diags) = lex("@ cash #");
    assert_eq!(diags.len(), 2, "one diagnostic per bad character: {diags:?}");
}

#[test]
fn braces_and_comma() {
    assert_eq!(kinds("{ , }"), vec![TokenKind::LBrace, TokenKind::Comma, TokenKind::RBrace]);
}

#[test]
fn rule_header_shape() {
    assert_eq!(
        kinds("rule build-power {"),
        vec![TokenKind::Rule, ident("build-power"), TokenKind::LBrace]
    );
}

#[test]
fn two_character_comparisons() {
    assert_eq!(
        kinds("== != <= >="),
        vec![TokenKind::EqEq, TokenKind::NotEq, TokenKind::LtEq, TokenKind::GtEq]
    );
}

#[test]
fn bare_equals_is_its_own_token() {
    assert_eq!(
        kinds("let size = 5"),
        vec![TokenKind::Let, ident("size"), TokenKind::Eq, TokenKind::Number(5)]
    );
}

#[test]
fn double_equals_still_wins() {
    assert_eq!(kinds("= =="), vec![TokenKind::Eq, TokenKind::EqEq]);
}

#[test]
fn one_character_comparisons() {
    assert_eq!(kinds("< >"), vec![TokenKind::Lt, TokenKind::Gt]);
}

#[test]
fn longest_match_wins() {
    assert_eq!(kinds("cash >= 300"), vec![ident("cash"), TokenKind::GtEq, TokenKind::Number(300)]);
}

#[test]
fn less_than_followed_by_a_number_is_not_lteq() {
    assert_eq!(
        kinds("count(e1) < 10"),
        vec![
            ident("count"),
            TokenKind::LParen,
            ident("e1"),
            TokenKind::RParen,
            TokenKind::Lt,
            TokenKind::Number(10),
        ]
    );
}

#[test]
fn keywords_are_their_own_kinds() {
    assert_eq!(
        kinds("rule priority category exclusive do require because let"),
        vec![
            TokenKind::Rule,
            TokenKind::Priority,
            TokenKind::Category,
            TokenKind::Exclusive,
            TokenKind::Do,
            TokenKind::Require,
            TokenKind::Because,
            TokenKind::Let,
        ]
    );
}

#[test]
fn operator_keywords() {
    assert_eq!(
        kinds("and or not exists"),
        vec![TokenKind::And, TokenKind::Or, TokenKind::Not, TokenKind::Exists]
    );
}

#[test]
fn a_word_that_merely_starts_with_a_keyword_is_an_identifier() {
    assert_eq!(
        kinds("rules required nothing"),
        vec![ident("rules"), ident("required"), ident("nothing")]
    );
}

#[test]
fn a_keyword_inside_a_kebab_name_is_not_a_keyword() {
    assert_eq!(kinds("do-thing"), vec![ident("do-thing")]);
}

#[test]
fn string_literal_holds_its_contents_without_quotes() {
    assert_eq!(
        kinds(r#"because "game 16""#),
        vec![TokenKind::Because, TokenKind::Str("game 16".to_string())]
    );
}

#[test]
fn string_span_includes_both_quotes() {
    assert_eq!(spans(r#""ab""#), vec![(TokenKind::Str("ab".to_string()), 0, 4)]);
}

#[test]
fn string_may_hold_multibyte_characters() {
    assert_eq!(
        kinds("\"an em-dash \u{2014} here\""),
        vec![TokenKind::Str("an em-dash \u{2014} here".to_string())]
    );
}

#[test]
fn unterminated_string_reports_and_does_not_hang() {
    let (_, diags) = lex("\"never closed");
    assert_eq!(diags.len(), 1, "expected one diagnostic: {diags:?}");
}

#[test]
fn float_literal() {
    assert_eq!(kinds("0.7"), vec![float("0.7")]);
}

#[test]
fn integer_stays_an_integer() {
    assert_eq!(kinds("300"), vec![TokenKind::Number(300)]);
}

#[test]
fn float_in_context() {
    assert_eq!(
        kinds("squad-ready-ratio >= 0.7"),
        vec![ident("squad-ready-ratio"), TokenKind::GtEq, float("0.7")]
    );
}

#[test]
fn emits_eof_at_end() {
    let (toks, _) = lex("cash");
    let last = toks.last().expect("always at least an Eof");
    assert_eq!(last.kind, TokenKind::Eof);
    assert_eq!(last.span, Span { start: 4, end: 4 });
}

#[test]
fn empty_input_is_just_eof() {
    let (toks, _) = lex("");
    assert_eq!(toks.len(), 1);
    assert_eq!(toks[0].kind, TokenKind::Eof);
}

#[test]
fn a_colon_is_punctuation() {
    assert_eq!(kinds("param n: int"), vec![TokenKind::Param, ident("n"), TokenKind::Colon, TokenKind::IntType]);
}

#[test]
fn spans_are_shifted_by_the_base() {
    let (toks, diags) = lex_at("cash @", 100);
    assert_eq!(toks[0].span, Span { start: 100, end: 104 });
    assert_eq!(diags[0].span, Span { start: 105, end: 106 });
    assert_eq!(toks.last().expect("eof").span, Span { start: 106, end: 106 });
}

#[test]
fn an_unknown_multibyte_character_is_reported_whole() {
    let (toks, diags) = lex("\u{2014}");
    assert_eq!(diags.len(), 1);
    assert_eq!(diags[0].span, Span { start: 0, end: 3 });
    assert_eq!(diags[0].message, "unexpected character `\u{2014}`");
    assert_eq!(toks.len(), 1);
}
