//! The abstract syntax tree the parser builds, and the binding-power
//! table that drives precedence climbing.

use vstd::prelude::*;

use crate::span::Spanned;

verus! {

/// The written types of the language.
#[derive(Debug, Clone, PartialEq, Eq, Structural)]
pub enum Type {
    Unit,
    Bool,
    U64,
    I64,
}

/// Binary operators.
#[derive(Debug, Clone, Copy, PartialEq, Eq, Structural)]
pub enum BinOp {
    Add,
    Sub,
    Mul,
    Div,
    Mod,
    Equal,
    NotEq,
    Less,
    Le,
    Greater,
    Ge,
    Or,
    And,
}

/// The fixed (left, right) binding powers of each binary operator,
/// low to high precedence: `||` < `&&` < equality < comparison <
/// additive < multiplicative.
pub open spec fn spec_binding_power(op: BinOp) -> (u8, u8) {
    match op {
        BinOp::Or => (1, 2),
        BinOp::And => (3, 4),
        BinOp::Equal | BinOp::NotEq => (5, 6),
        BinOp::Less | BinOp::Le | BinOp::Greater | BinOp::Ge => (7, 8),
        BinOp::Add | BinOp::Sub => (9, 10),
        BinOp::Mul | BinOp::Div | BinOp::Mod => (11, 12),
    }
}

impl BinOp {
    pub fn binding_power(&self) -> (r: (u8, u8))
        ensures
            r == spec_binding_power(*self),
    {
        match self {
            BinOp::Or => (1, 2),
            BinOp::And => (3, 4),
            BinOp::Equal | BinOp::NotEq => (5, 6),
            BinOp::Less | BinOp::Le | BinOp::Greater | BinOp::Ge => (7, 8),
            BinOp::Add | BinOp::Sub => (9, 10),
            BinOp::Mul | BinOp::Div | BinOp::Mod => (11, 12),
        }
    }
}

/// Every binary operator is left-associative: its right binding power
/// is its left binding power plus one.
pub proof fn lemma_binding_power_left_assoc(op: BinOp)
    ensures
        spec_binding_power(op).1 == spec_binding_power(op).0 + 1,
        spec_binding_power(op).0 >= 1,
{
}

/// Unary operators: arithmetic negation and logical not.
#[derive(Debug, Clone, Copy, PartialEq, Eq, Structural)]
pub enum UnaryOp {
    Neg,
    Not,
}

/// The closed set of expression forms.
#[derive(Debug)]
pub enum ExprKind {
    Int(u64),
    Bool(bool),
    Unit,
    Unary { op: Spanned<UnaryOp>, expr: Box<Expr> },
    Binary { op: Spanned<BinOp>, lhs: Box<Expr>, rhs: Box<Expr> },
    Let { name: Spanned<String>, ty: Option<Spanned<Type>>, value: Box<Expr> },
    Assign { name: Spanned<String>, value: Box<Expr> },
    Ident { exprs: Vec<Expr>, tail: Box<Expr> },
    Var(String),
}

/// An expression together with the span of text it covers.
pub type Expr = Spanned<ExprKind>;

/// A function parameter (currently only the named form, with an
/// optional written type).
#[derive(Debug)]
pub enum Param {
    Named { name: Spanned<String>, ty: Option<Spanned<Type>> },
}

/// A top-level function: name, parameters, optional return type, and
/// a body expression.
#[derive(Debug)]
pub struct Func {
    pub name: Spanned<String>,
    pub params: Vec<Spanned<Param>>,
    pub ty: Option<Spanned<Type>>,
    pub body: Expr,
}

} // verus!
