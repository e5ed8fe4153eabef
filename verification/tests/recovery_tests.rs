use ginto::lexer::Lexer;
use ginto::parser::{Parser, ParserError};
use ginto::source::FileId;
use ginto::token::TokenKind;

fn parser_for(input: &str) -> Parser {
    let mut lx = Lexer::new(FileId(0), input);
    let tokens = lx.lex_all().expect("lexing should succeed");
    Parser::new(FileId(0), tokens)
}

#[test]
fn check_and_match_consume_only_on_a_hit() {
    let mut p = parser_for("let x");
    assert!(p.check(&TokenKind::Let));
    assert!(!p.check(&TokenKind::Fn));
    assert!(!p.match_token(TokenKind::Fn));
    assert!(p.match_token(TokenKind::Let));
    assert!(p.check(&TokenKind::Ident("x".to_string())));
}

#[test]
fn check_never_matches_at_end_of_input() {
    let mut p = parser_for("");
    assert!(p.is_at_end());
    assert!(!p.check(&TokenKind::Eof));
    assert!(!p.match_token(TokenKind::Eof));
}

#[test]
fn match_any_takes_the_first_hit() {
    let mut p = parser_for("fn x");
    let set = vec![TokenKind::Let, TokenKind::Fn, TokenKind::Mod];
    assert!(p.check_any(&set));
    assert!(p.match_any(&set));
    assert!(!p.check_any(&set));
}

#[test]
fn expect_reports_the_expected_and_found_kinds() {
    let mut p = parser_for("+");
    match p.expect(TokenKind::IntLiteral(1)) {
        Err(ParserError::UnexpectedToken { expected, found, .. }) => {
            assert_eq!(expected, vec![TokenKind::IntLiteral(1)]);
            assert_eq!(found, TokenKind::Plus);
        }
        other => panic!("expected an UnexpectedToken error, got {:?}", other),
    }
    assert!(p.expect(TokenKind::Plus).is_ok());
    match p.expect(TokenKind::Plus) {
        Err(ParserError::UnexpectedEof { expected, .. }) => {
            assert_eq!(expected, vec![TokenKind::Plus]);
        }
        other => panic!("expected an UnexpectedEof error, got {:?}", other),
    }
}

#[test]
fn expect_with_recovery_skips_to_the_synchronization_set() {
    let mut p = parser_for("1 2 3\nlet x");
    let sync = vec![TokenKind::Newline, TokenKind::Eof];
    let r = p.expect_with_recovery(TokenKind::Plus, &sync);
    assert!(r.is_none());
    assert_eq!(p.errors().len(), 1);
    assert!(p.check(&TokenKind::Newline));
}

#[test]
fn synchronize_to_statement_stops_at_a_statement_starter() {
    let mut p = parser_for("1 2 3 let x");
    p.synchronize_to_statement();
    assert!(p.check(&TokenKind::Let));
}

#[test]
fn synchronize_to_newline_stops_at_end_of_input_without_one() {
    let mut p = parser_for("1 2 3");
    p.synchronize_to_newline();
    assert!(p.is_at_end());
}

#[test]
fn skip_newlines_passes_blank_lines() {
    let mut p = parser_for("\n\n\nx");
    p.skip_newlines();
    assert!(p.check(&TokenKind::Ident("x".to_string())));
}

#[test]
fn expect_newline_or_eof_accepts_both_and_rejects_others() {
    let mut p = parser_for("x\ny");
    assert!(p.match_token(TokenKind::Ident("x".to_string())));
    assert!(p.expect_newline_or_eof().is_ok());
    match p.expect_newline_or_eof() {
        Err(ParserError::UnexpectedToken { expected, found, .. }) => {
            assert_eq!(expected, vec![TokenKind::Newline, TokenKind::Eof]);
            assert_eq!(found, TokenKind::Ident("y".to_string()));
        }
        other => panic!("expected an UnexpectedToken error, got {:?}", other),
    }
    assert!(p.match_token(TokenKind::Ident("y".to_string())));
    assert!(p.expect_newline_or_eof().is_ok());
}

#[test]
fn error_and_recover_records_and_skips() {
    let mut p = parser_for("1 2\nx");
    let sync = vec![TokenKind::Newline, TokenKind::Eof];
    let err = ParserError::MissingExpression {
        span: ginto::span::Span::new(ginto::span::BytePos(0), ginto::span::BytePos(0)),
        file_id: FileId(0),
    };
    let r: Option<()> = p.error_and_recover(err, &sync);
    assert!(r.is_none());
    assert_eq!(p.errors().len(), 1);
    assert!(p.check(&TokenKind::Newline));
}

#[test]
fn peek_is_clamps_at_the_final_token() {
    let p = parser_for("a b");
    assert!(p.peek_is(0, TokenKind::Ident("a".to_string())));
    assert!(p.peek_is(1, TokenKind::Ident("b".to_string())));
    assert!(p.peek_is(2, TokenKind::Eof));
    assert!(p.peek_is(99, TokenKind::Eof));
}
