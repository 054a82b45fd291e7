use subset_front::lex::{next_token, tokenize, LexError, Token, TokenKind};
use subset_front::preprocess::strip_comments;

fn kinds_and_text(src: &str) -> Vec<(TokenKind, String)> {
    tokenize(&src.as_bytes().to_vec())
        .unwrap()
        .iter()
        .map(|t| (t.kind, src[t.start..t.end].to_string()))
        .collect()
}

#[test]
fn let_statement_tokens() {
    let toks = kinds_and_text("let mut x: i32 = 42;");
    let expected = vec![
        (TokenKind::Keyword, "let"),
        (TokenKind::Keyword, "mut"),
        (TokenKind::Ident, "x"),
        (TokenKind::Punct, ":"),
        (TokenKind::Keyword, "i32"),
        (TokenKind::Punct, "="),
        (TokenKind::Int, "42"),
        (TokenKind::Punct, ";"),
    ];
    assert_eq!(toks.len(), expected.len());
    for (got, want) in toks.iter().zip(expected.iter()) {
        assert_eq!(got.0, want.0);
        assert_eq!(got.1, want.1);
    }
}

#[test]
fn two_char_operators_win() {
    let toks = kinds_and_text("a<=b&&c==d->e::f+=1");
    let texts: Vec<&str> = toks.iter().map(|t| t.1.as_str()).collect();
    assert_eq!(texts, vec!["a", "<=", "b", "&&", "c", "==", "d", "->", "e", "::", "f", "+=", "1"]);
}

#[test]
fn identifiers_that_start_with_keywords() {
    let toks = kinds_and_text("letter iffy fn_x fn");
    assert_eq!(toks[0].0, TokenKind::Ident);
    assert_eq!(toks[1].0, TokenKind::Ident);
    assert_eq!(toks[2].0, TokenKind::Ident);
    assert_eq!(toks[3].0, TokenKind::Keyword);
}

#[test]
fn string_literal_with_escapes_is_one_token() {
    let toks = kinds_and_text("print(\"a \\\" b\");");
    assert_eq!(toks[2], (TokenKind::Literal, "\"a \\\" b\"".to_string()));
    assert_eq!(toks.len(), 5);
}

#[test]
fn invalid_character() {
    assert_eq!(tokenize(&"x = 1 @ 2".as_bytes().to_vec()).unwrap_err(), LexError::InvalidChar { at: 6 });
}

#[test]
fn unterminated_string_token() {
    assert_eq!(
        tokenize(&"x = \"abc".as_bytes().to_vec()).unwrap_err(),
        LexError::UnterminatedLiteral { start: 4 }
    );
}

#[test]
fn empty_and_blank_sources() {
    assert!(tokenize(&Vec::new()).unwrap().is_empty());
    assert!(tokenize(&" \n\t ".as_bytes().to_vec()).unwrap().is_empty());
}

#[test]
fn single_token_at_position() {
    let src = "  while".as_bytes().to_vec();
    assert_eq!(next_token(&src, 2), Ok(Token { kind: TokenKind::Keyword, start: 2, end: 7 }));
}

#[test]
fn preprocess_then_lex() {
    let src = "let c /* this is */ = /* also a block comment */ 3; // done";
    let stripped = strip_comments(&src.as_bytes().to_vec()).unwrap();
    let toks = tokenize(&stripped).unwrap();
    let kinds: Vec<TokenKind> = toks.iter().map(|t| t.kind).collect();
    assert_eq!(
        kinds,
        vec![TokenKind::Keyword, TokenKind::Ident, TokenKind::Punct, TokenKind::Int, TokenKind::Punct]
    );
}
