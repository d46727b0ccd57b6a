use vimyc::lexer::lex;
use vimyc::token::TokenKind;

/// The vocabulary the lexer actually produces, against the tables that
/// describe it.
#[test]
fn the_token_tables_cover_what_the_lexer_lexes() {
    let operators = TokenKind::operators();
    let punctuation = TokenKind::punctuation();
    let keywords = TokenKind::keywords();
    for spelling in operators.iter().chain(punctuation.iter()).chain(keywords.iter()) {
        let (tokens, diags) = lex(spelling);
        assert!(diags.is_empty(), "`{spelling}` does not lex: {diags:?}");
        assert_eq!(tokens.len(), 2, "`{spelling}` lexed as {} tokens", tokens.len() - 1);
    }

    // And the reverse: every punctuation byte the lexer accepts is listed.
    for c in "{}(),:+-*/<>=".chars() {
        let s = c.to_string();
        assert!(
            operators.contains(&s.as_str()) || punctuation.contains(&s.as_str()),
            "the lexer accepts `{c}` but no table lists it"
        );
    }
}

#[test]
fn keywords_match_the_lookup() {
    for k in TokenKind::keywords() {
        assert!(TokenKind::keyword(k).is_some(), "`{k}` is listed but the lexer does not know it");
    }
    assert_eq!(
        TokenKind::keywords().len(),
        16,
        "a keyword was added or removed; update KEYWORDS and this count"
    );
}

#[test]
fn a_keyword_lexes_as_its_own_kind() {
    for k in TokenKind::keywords() {
        let (tokens, _) = lex(k);
        assert_eq!(Some(tokens[0].kind.clone()), TokenKind::keyword(k));
    }
    assert!(TokenKind::keyword("rules").is_none());
}
