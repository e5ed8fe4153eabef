use ginto::ast::{BinOp, ExprKind, UnaryOp};
use ginto::lexer::Lexer;
use ginto::parser::{Parser, ParserError};
use ginto::source::FileId;
use ginto::span::{BytePos, Span};
use ginto::token::TokenKind;

fn parse(input: &str) -> (Option<ginto::ast::Expr>, Vec<ParserError>) {
    let mut lx = Lexer::new(FileId(0), input);
    let tokens = lx.lex_all().expect("lexing should succeed");
    let mut p = Parser::new(FileId(0), tokens);
    let e = p.parse_expr();
    (e, p.errors().clone())
}

#[test]
fn multiplication_binds_tighter_than_addition() {
    let (e, errs) = parse("1 + 2 * 3");
    assert!(errs.is_empty());
    let e = e.unwrap();
    match &e.inner {
        ExprKind::Binary { op, lhs, rhs } => {
            assert_eq!(op.inner, BinOp::Add);
            assert!(matches!(lhs.inner, ExprKind::Int(1)));
            match &rhs.inner {
                ExprKind::Binary { op, lhs, rhs } => {
                    assert_eq!(op.inner, BinOp::Mul);
                    assert!(matches!(lhs.inner, ExprKind::Int(2)));
                    assert!(matches!(rhs.inner, ExprKind::Int(3)));
                }
                other => panic!("expected Mul, got {:?}", other),
            }
        }
        other => panic!("expected Add, got {:?}", other),
    }
}

#[test]
fn subtraction_is_left_associative() {
    let (e, errs) = parse("1 - 2 - 3");
    assert!(errs.is_empty());
    let e = e.unwrap();
    match &e.inner {
        ExprKind::Binary { op, lhs, rhs } => {
            assert_eq!(op.inner, BinOp::Sub);
            assert!(matches!(rhs.inner, ExprKind::Int(3)));
            match &lhs.inner {
                ExprKind::Binary { op, lhs, rhs } => {
                    assert_eq!(op.inner, BinOp::Sub);
                    assert!(matches!(lhs.inner, ExprKind::Int(1)));
                    assert!(matches!(rhs.inner, ExprKind::Int(2)));
                }
                other => panic!("expected Sub, got {:?}", other),
            }
        }
        other => panic!("expected Sub, got {:?}", other),
    }
}

#[test]
fn logical_and_binds_tighter_than_or() {
    let (e, errs) = parse("1 || 2 && 3");
    assert!(errs.is_empty());
    let e = e.unwrap();
    match &e.inner {
        ExprKind::Binary { op, lhs, rhs } => {
            assert_eq!(op.inner, BinOp::Or);
            assert!(matches!(lhs.inner, ExprKind::Int(1)));
            match &rhs.inner {
                ExprKind::Binary { op, lhs, rhs } => {
                    assert_eq!(op.inner, BinOp::And);
                    assert!(matches!(lhs.inner, ExprKind::Int(2)));
                    assert!(matches!(rhs.inner, ExprKind::Int(3)));
                }
                other => panic!("expected And, got {:?}", other),
            }
        }
        other => panic!("expected Or, got {:?}", other),
    }
}

#[test]
fn unit_literal_spans_both_parentheses() {
    let (e, errs) = parse("()");
    assert!(errs.is_empty());
    let e = e.unwrap();
    assert!(matches!(e.inner, ExprKind::Unit));
    assert_eq!(e.span, Span::new(BytePos(0), BytePos(2)));
}

#[test]
fn parenthesized_expression_is_respanned() {
    let (e, errs) = parse("(1)");
    assert!(errs.is_empty());
    let e = e.unwrap();
    assert!(matches!(e.inner, ExprKind::Int(1)));
    assert_eq!(e.span, Span::new(BytePos(0), BytePos(3)));
}

#[test]
fn parentheses_override_precedence() {
    let (e, errs) = parse("(1 || 2) && 3");
    assert!(errs.is_empty());
    let e = e.unwrap();
    match &e.inner {
        ExprKind::Binary { op, lhs, .. } => {
            assert_eq!(op.inner, BinOp::And);
            assert!(matches!(
                lhs.inner,
                ExprKind::Binary { ref op, .. } if op.inner == BinOp::Or
            ));
        }
        other => panic!("expected And, got {:?}", other),
    }
}

#[test]
fn unary_operators_nest_and_bind_tighter_than_binary() {
    let (e, errs) = parse("- not x * 3");
    assert!(errs.is_empty());
    let e = e.unwrap();
    match &e.inner {
        ExprKind::Binary { op, lhs, rhs } => {
            assert_eq!(op.inner, BinOp::Mul);
            assert!(matches!(rhs.inner, ExprKind::Int(3)));
            match &lhs.inner {
                ExprKind::Unary { op, expr } => {
                    assert_eq!(op.inner, UnaryOp::Neg);
                    match &expr.inner {
                        ExprKind::Unary { op, expr } => {
                            assert_eq!(op.inner, UnaryOp::Not);
                            assert!(
                                matches!(expr.inner, ExprKind::Var(ref v) if v == "x")
                            );
                        }
                        other => panic!("expected Not, got {:?}", other),
                    }
                }
                other => panic!("expected Neg, got {:?}", other),
            }
        }
        other => panic!("expected Mul, got {:?}", other),
    }
}

#[test]
fn variable_reference_keeps_its_name_and_span() {
    let (e, errs) = parse("hello");
    assert!(errs.is_empty());
    let e = e.unwrap();
    assert!(matches!(e.inner, ExprKind::Var(ref v) if v == "hello"));
    assert_eq!(e.span, Span::new(BytePos(0), BytePos(5)));
}

#[test]
fn missing_expression_is_reported_and_yields_nothing() {
    let (e, errs) = parse("+");
    assert!(e.is_none());
    assert_eq!(errs.len(), 1);
    assert!(matches!(errs[0], ParserError::MissingExpression { .. }));
}

#[test]
fn operator_without_right_operand_fails() {
    let (e, errs) = parse("1 +");
    assert!(e.is_none());
    assert_eq!(errs.len(), 1);
    assert!(matches!(errs[0], ParserError::MissingExpression { .. }));
}

#[test]
fn unclosed_parenthesis_reports_unexpected_eof() {
    let (e, errs) = parse("(1");
    assert!(e.is_none());
    assert_eq!(errs.len(), 1);
    match &errs[0] {
        ParserError::UnexpectedEof { expected, .. } => {
            assert_eq!(expected, &vec![TokenKind::RParen]);
        }
        other => panic!("expected UnexpectedEof, got {:?}", other),
    }
}

#[test]
fn binding_power_table_is_left_associative() {
    let table = [
        (BinOp::Or, (1, 2)),
        (BinOp::And, (3, 4)),
        (BinOp::Equal, (5, 6)),
        (BinOp::NotEq, (5, 6)),
        (BinOp::Less, (7, 8)),
        (BinOp::Le, (7, 8)),
        (BinOp::Greater, (7, 8)),
        (BinOp::Ge, (7, 8)),
        (BinOp::Add, (9, 10)),
        (BinOp::Sub, (9, 10)),
        (BinOp::Mul, (11, 12)),
        (BinOp::Div, (11, 12)),
        (BinOp::Mod, (11, 12)),
    ];
    for (op, bp) in table {
        assert_eq!(op.binding_power(), bp);
        assert_eq!(bp.1, bp.0 + 1);
    }
}
