use ginto::lexer::{Lexer, LexerError};
use ginto::source::FileId;
use ginto::token::TokenKind;

fn kinds_of(input: &str) -> Vec<TokenKind> {
    let mut lx = Lexer::new(FileId(0), input);
    let tokens = lx.lex_all().expect("expected a clean token stream");
    tokens.into_iter().map(|t| t.inner).collect()
}

fn errors_of(input: &str) -> Vec<LexerError> {
    let mut lx = Lexer::new(FileId(0), input);
    lx.lex_all().expect_err("expected lexical errors")
}

#[test]
fn plain_expression_tokens() {
    assert_eq!(
        kinds_of("23 + 1"),
        vec![
            TokenKind::IntLiteral(23),
            TokenKind::Plus,
            TokenKind::IntLiteral(1),
            TokenKind::Eof
        ]
    );
}

#[test]
fn keywords_and_identifiers() {
    assert_eq!(
        kinds_of("let mod fn not u64 i64 true false foo a1_b"),
        vec![
            TokenKind::Let,
            TokenKind::Mod,
            TokenKind::Fn,
            TokenKind::Not,
            TokenKind::U64,
            TokenKind::I64,
            TokenKind::BoolLiteral(true),
            TokenKind::BoolLiteral(false),
            TokenKind::Ident("foo".to_string()),
            TokenKind::Ident("a1_b".to_string()),
            TokenKind::Eof
        ]
    );
}

#[test]
fn compound_operators_use_one_character_lookahead() {
    assert_eq!(
        kinds_of("a -> b <> c <= d >= e && f || g"),
        vec![
            TokenKind::Ident("a".to_string()),
            TokenKind::Arrow,
            TokenKind::Ident("b".to_string()),
            TokenKind::NotEqual,
            TokenKind::Ident("c".to_string()),
            TokenKind::LessEqual,
            TokenKind::Ident("d".to_string()),
            TokenKind::GreaterEqual,
            TokenKind::Ident("e".to_string()),
            TokenKind::And,
            TokenKind::Ident("f".to_string()),
            TokenKind::Or,
            TokenKind::Ident("g".to_string()),
            TokenKind::Eof
        ]
    );
}

#[test]
fn single_character_tokens() {
    assert_eq!(
        kinds_of("( ) . , : = < > * /"),
        vec![
            TokenKind::LParen,
            TokenKind::RParen,
            TokenKind::Dot,
            TokenKind::Comma,
            TokenKind::Colon,
            TokenKind::Equal,
            TokenKind::Less,
            TokenKind::Greater,
            TokenKind::Star,
            TokenKind::Slash,
            TokenKind::Eof
        ]
    );
}

#[test]
fn unexpected_character_is_reported_once_and_lexing_continues() {
    let errs = errors_of("23 + 1 @");
    assert_eq!(errs.len(), 1);
    assert!(matches!(
        errs[0],
        LexerError::UnexpectedCharacter { ch: '@', .. }
    ));
}

#[test]
fn lone_ampersand_is_an_unexpected_character() {
    let errs = errors_of("a & b");
    assert_eq!(errs.len(), 1);
    assert!(matches!(
        errs[0],
        LexerError::UnexpectedCharacter { ch: '&', .. }
    ));
}

#[test]
fn largest_u64_fits_and_one_more_does_not() {
    assert_eq!(
        kinds_of("18446744073709551615"),
        vec![TokenKind::IntLiteral(u64::MAX), TokenKind::Eof]
    );
    let errs = errors_of("18446744073709551616");
    assert_eq!(errs.len(), 1);
    assert!(matches!(errs[0], LexerError::NumberTooLarge { .. }));
}

#[test]
fn indent_and_dedent_are_balanced_at_end_of_file() {
    let kinds = kinds_of("a\n  b\n    c");
    assert_eq!(
        kinds,
        vec![
            TokenKind::Ident("a".to_string()),
            TokenKind::Indent,
            TokenKind::Newline,
            TokenKind::Ident("b".to_string()),
            TokenKind::Indent,
            TokenKind::Newline,
            TokenKind::Ident("c".to_string()),
            TokenKind::Dedent,
            TokenKind::Dedent,
            TokenKind::Eof
        ]
    );
    let indents = kinds.iter().filter(|k| **k == TokenKind::Indent).count();
    let dedents = kinds.iter().filter(|k| **k == TokenKind::Dedent).count();
    assert_eq!(indents, dedents);
}

#[test]
fn dedent_to_an_existing_level_is_not_an_error() {
    assert_eq!(
        kinds_of("a\n    b\nc"),
        vec![
            TokenKind::Ident("a".to_string()),
            TokenKind::Indent,
            TokenKind::Newline,
            TokenKind::Ident("b".to_string()),
            TokenKind::Dedent,
            TokenKind::Newline,
            TokenKind::Ident("c".to_string()),
            TokenKind::Eof
        ]
    );
}

#[test]
fn indentation_matching_no_open_level_is_one_error() {
    let errs = errors_of("a\n    b\n  c");
    assert_eq!(errs.len(), 1);
    assert!(matches!(errs[0], LexerError::InvalidIndentation { .. }));
}

#[test]
fn every_stream_ends_in_exactly_one_eof() {
    for input in ["", "   ", "a", "a\n", "a\n  b\n"] {
        let mut lx = Lexer::new(FileId(0), input);
        let tokens = lx.lex_all().unwrap();
        assert_eq!(tokens.last().unwrap().inner, TokenKind::Eof);
        let eofs = tokens
            .iter()
            .filter(|t| t.inner == TokenKind::Eof)
            .count();
        assert_eq!(eofs, 1, "input {:?}", input);
    }
}

#[test]
fn one_newline_token_per_line_feed() {
    let kinds = kinds_of("a\n\nb\n");
    let newlines = kinds.iter().filter(|k| **k == TokenKind::Newline).count();
    assert_eq!(newlines, 3);
}

#[test]
fn token_spans_cover_their_text() {
    let mut lx = Lexer::new(FileId(0), "ab + 7");
    let tokens = lx.lex_all().unwrap();
    assert_eq!(tokens[0].span.start.0, 0);
    assert_eq!(tokens[0].span.end.0, 2);
    assert_eq!(tokens[1].span.start.0, 3);
    assert_eq!(tokens[1].span.end.0, 4);
    assert_eq!(tokens[2].span.start.0, 5);
    assert_eq!(tokens[2].span.end.0, 6);
}

#[test]
fn nul_is_an_unexpected_character_not_end_of_input() {
    let mut lx = Lexer::new(FileId(0), "a\u{0}b");
    let errs = lx.lex_all().expect_err("NUL starts no token");
    assert_eq!(errs.len(), 1);
    assert!(matches!(
        errs[0],
        LexerError::UnexpectedCharacter { ch: '\u{0}', .. }
    ));
}

#[test]
fn eof_token_sits_at_end_of_input() {
    let mut lx = Lexer::new(FileId(0), "ab + 7");
    let tokens = lx.lex_all().unwrap();
    let eof = tokens.last().unwrap();
    assert_eq!(eof.inner, TokenKind::Eof);
    assert_eq!(eof.span.start.0, 6);
    assert_eq!(eof.span.end.0, 6);
}
