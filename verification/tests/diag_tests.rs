use ginto::diag::{Diagnostic, DiagnosticConvertible, Label, Severity};
use ginto::lexer::LexerError;
use ginto::parser::ParserError;
use ginto::render::{DiagnosticRenderer, PlainDiagnosticRenderer};
use ginto::source::{FileId, SourceManager};
use ginto::span::{BytePos, Span};
use ginto::strings::{repeat_char, str_eq, string_from_chars, usize_to_string};
use ginto::token::TokenKind;

fn sp(a: usize, b: usize) -> Span {
    Span::new(BytePos(a), BytePos(b))
}

fn check_conversion(d: &Diagnostic, span: Span) {
    assert!(matches!(d.severity, Severity::Error));
    assert!(!d.message.is_empty());
    assert_eq!(d.labels.len(), 1);
    assert!(d.labels[0].is_primary);
    assert_eq!(d.labels[0].span, span);
    assert_eq!(d.labels[0].file_id, FileId(7));
}

#[test]
fn every_lexer_error_variant_converts_to_a_primary_labeled_error() {
    let cases: Vec<(LexerError, Span)> = vec![
        (
            LexerError::UnexpectedCharacter { ch: '@', span: sp(3, 3), file_id: FileId(7) },
            sp(3, 3),
        ),
        (
            LexerError::InvalidNumber {
                text: "12x".to_string(),
                span: sp(0, 3),
                file_id: FileId(7),
            },
            sp(0, 3),
        ),
        (LexerError::NumberTooLarge { span: sp(1, 21), file_id: FileId(7) }, sp(1, 21)),
        (LexerError::InvalidIndentation { span: sp(9, 9), file_id: FileId(7) }, sp(9, 9)),
    ];
    for (err, span) in cases {
        let d = err.into_diagnostic();
        check_conversion(&d, span);
    }
}

#[test]
fn every_parser_error_variant_converts_to_a_primary_labeled_error() {
    let cases: Vec<(ParserError, Span)> = vec![
        (
            ParserError::UnexpectedToken {
                expected: vec![TokenKind::RParen],
                found: TokenKind::Plus,
                span: sp(4, 5),
                file_id: FileId(7),
            },
            sp(4, 5),
        ),
        (
            ParserError::UnexpectedEof {
                expected: vec![TokenKind::Newline, TokenKind::Eof],
                span: sp(8, 8),
                file_id: FileId(7),
            },
            sp(8, 8),
        ),
        (ParserError::MissingExpression { span: sp(2, 2), file_id: FileId(7) }, sp(2, 2)),
        (
            ParserError::InvalidSyntax {
                message: "mixed up".to_string(),
                span: sp(0, 1),
                file_id: FileId(7),
            },
            sp(0, 1),
        ),
    ];
    for (err, span) in cases {
        let d = err.into_diagnostic();
        check_conversion(&d, span);
    }
}

#[test]
fn conversion_messages_carry_the_offending_details() {
    let d = LexerError::UnexpectedCharacter { ch: '@', span: sp(3, 3), file_id: FileId(0) }
        .into_diagnostic();
    assert_eq!(d.message, "unexpected character `@`");
    let d = ParserError::UnexpectedToken {
        expected: vec![TokenKind::RParen],
        found: TokenKind::Plus,
        span: sp(4, 5),
        file_id: FileId(0),
    }
    .into_diagnostic();
    assert_eq!(d.message, "unexpected token `+`");
    assert_eq!(d.labels[0].message.as_deref(), Some("expected `)`, found `+`"));
    let d = ParserError::UnexpectedToken {
        expected: vec![TokenKind::RParen, TokenKind::Comma],
        found: TokenKind::Plus,
        span: sp(4, 5),
        file_id: FileId(0),
    }
    .into_diagnostic();
    assert_eq!(
        d.labels[0].message.as_deref(),
        Some("expected one of `)`, `,`, found `+`")
    );
}

#[test]
fn builders_accumulate_fields() {
    let d = Diagnostic::new(Severity::Warning)
        .with_message("m")
        .with_code("W001")
        .with_label(Label::primary(FileId(0), sp(0, 1)))
        .with_label(Label::secondary(FileId(0), sp(2, 3)).with_message("ctx"))
        .with_labels(vec![Label::primary(FileId(1), sp(4, 5))])
        .with_note("n1")
        .with_notes(vec!["n2".to_string(), "n3".to_string()])
        .with_help("h");
    assert!(matches!(d.severity, Severity::Warning));
    assert_eq!(d.message, "m");
    assert_eq!(d.code.as_deref(), Some("W001"));
    assert_eq!(d.labels.len(), 3);
    assert!(d.labels[0].is_primary);
    assert!(!d.labels[1].is_primary);
    assert_eq!(d.labels[1].message.as_deref(), Some("ctx"));
    assert_eq!(d.notes, vec!["n1", "n2", "n3"]);
    assert_eq!(d.help.as_deref(), Some("h"));
}

#[test]
fn severity_constructors_and_text() {
    assert_eq!(Severity::Error.as_str(), "error");
    assert_eq!(Severity::Warning.as_str(), "warning");
    assert_eq!(Severity::Note.as_str(), "note");
    assert_eq!(Severity::Help.as_str(), "help");
    assert!(matches!(Diagnostic::error("x").severity, Severity::Error));
    assert!(matches!(Diagnostic::warning("x").severity, Severity::Warning));
    assert!(matches!(Diagnostic::note("x").severity, Severity::Note));
    assert!(matches!(Diagnostic::help("x").severity, Severity::Help));
}

#[test]
fn minimal_diagnostic_renders_as_one_line() {
    let sm = SourceManager::new();
    let r = PlainDiagnosticRenderer;
    let text = r.render(&sm, Diagnostic::error("boom"));
    assert_eq!(text, "error : boom\n");
}

#[test]
fn code_renders_in_brackets_after_the_severity() {
    let sm = SourceManager::new();
    let r = PlainDiagnosticRenderer;
    let text = r.render(&sm, Diagnostic::error("boom").with_code("E042"));
    assert_eq!(text, "error[E042] : boom\n");
}

#[test]
fn labeled_diagnostic_renders_location_line_and_caret() {
    let mut sm = SourceManager::new();
    let id = sm.add_file("f.ginto".to_string(), "foo\nbar baz".to_string());
    let d = Diagnostic::error("boom")
        .with_label(Label::primary(id, sp(4, 7)).with_message("here"))
        .with_note("a note")
        .with_help("a hint");
    let r = PlainDiagnosticRenderer;
    let text = r.render(&sm, d);
    let expected = "error : boom\n --> f.ginto:2:1\n   2 | bar baz\n     | ^^^ here\nnote: a note\nhelp: a hint\n";
    assert_eq!(text, expected);
}

#[test]
fn renderer_trims_trailing_whitespace_and_pads_the_caret() {
    let mut sm = SourceManager::new();
    let id = sm.add_file("f".to_string(), "ab cd   \nx".to_string());
    let d = Diagnostic::error("m").with_label(Label::primary(id, sp(3, 5)));
    let r = PlainDiagnosticRenderer;
    let text = r.render(&sm, d);
    let expected = "error : m\n --> f:1:4\n   1 | ab cd\n     |    ^^\n";
    assert_eq!(text, expected);
}

#[test]
fn zero_length_span_still_gets_one_caret() {
    let mut sm = SourceManager::new();
    let id = sm.add_file("f".to_string(), "abc".to_string());
    let d = Diagnostic::error("m").with_label(Label::primary(id, sp(1, 1)));
    let r = PlainDiagnosticRenderer;
    let text = r.render(&sm, d);
    assert!(text.contains("     |  ^\n"));
}

#[test]
fn string_helpers_build_exact_text() {
    assert_eq!(usize_to_string(0), "0");
    assert_eq!(usize_to_string(42), "42");
    assert_eq!(usize_to_string(1234567890), "1234567890");
    assert_eq!(repeat_char('^', 4), "^^^^");
    assert_eq!(repeat_char(' ', 0), "");
    let v = vec!['h', 'e', 'l', 'l', 'o'];
    assert_eq!(string_from_chars(&v, 1, 4), "ell");
    assert!(str_eq("abc", "abc"));
    assert!(!str_eq("abc", "abd"));
    assert!(!str_eq("abc", "abcd"));
}

#[test]
fn token_descriptions_are_stable() {
    assert_eq!(TokenKind::IntLiteral(1).describe(), "integer literal");
    assert_eq!(TokenKind::Ident("x".to_string()).describe(), "identifier");
    assert_eq!(TokenKind::Arrow.describe(), "`->`");
    assert_eq!(TokenKind::Eof.describe(), "end of file");
    assert_eq!(TokenKind::Newline.describe(), "newline");
}
