//! The abstract syntax of ECEL branch conditions, as the checks read it.

use vstd::prelude::*;

verus! {

/// One segment of a path such as `message.payload.items[0]`.
#[derive(Debug, Clone)]
pub enum PathSegment {
    Field(String),
    Wildcard,
    Index(u64),
    QuotedKey(String),
}

/// A dotted path into the message (or into a supplement's keyword root).
#[derive(Debug, Clone)]
pub struct PathExpr {
    pub segments: Vec<PathSegment>,
}

/// The built-in ECEL functions.
#[derive(Debug, Clone, Copy, PartialEq, Eq, Structural)]
pub enum FuncName {
    Length,
    Abs,
    Lower,
    Upper,
}

/// A numeric literal: its source text and whether its value is zero (the
/// only property of a number the static checks read).
#[derive(Debug, Clone)]
pub struct NumberLiteral {
    pub text: String,
    pub is_zero: bool,
}

/// A value-producing expression.
#[derive(Debug)]
pub enum ValueExpr {
    Path(PathExpr),
    Number(NumberLiteral),
    Call(FuncName, Box<ValueExpr>),
    Add(Box<ValueExpr>, Box<ValueExpr>),
    Sub(Box<ValueExpr>, Box<ValueExpr>),
    Mul(Box<ValueExpr>, Box<ValueExpr>),
    Div(Box<ValueExpr>, Box<ValueExpr>),
}

/// A literal operand.
#[derive(Debug)]
pub enum Literal {
    Number(NumberLiteral),
    String(String),
    Bool(bool),
    Null,
    Array(Vec<Literal>),
}

/// Either side of a comparison.
#[derive(Debug)]
pub enum Operand {
    Value(ValueExpr),
    Literal(Literal),
}

/// The comparison operators.
#[derive(Debug, Clone, Copy, PartialEq, Eq, Structural)]
pub enum Comparator {
    Eq,
    Neq,
    Gt,
    Gte,
    Lt,
    Lte,
    In,
    Matches,
}

/// `left op right`, with each operand's rendering as diagnostics quote it.
#[derive(Debug)]
pub struct Comparison {
    pub left: Operand,
    pub op: Comparator,
    pub right: Operand,
    /// How diagnostics write the left operand.
    pub left_text: String,
    /// How diagnostics write the right operand.
    pub right_text: String,
}

/// `any`/`all` over an array-typed path, applying `comparison` to each item.
#[derive(Debug)]
pub struct QuantifierExpr {
    pub path: PathExpr,
    pub comparison: Comparison,
}

/// A boolean condition expression.
#[derive(Debug)]
pub enum BoolExpr {
    And(Box<BoolExpr>, Box<BoolExpr>),
    Or(Box<BoolExpr>, Box<BoolExpr>),
    Not(Box<BoolExpr>),
    Comparison(Comparison),
    Quantifier(QuantifierExpr),
    Defined(PathExpr),
}

/// A barrier branch condition.
#[derive(Debug)]
pub enum Condition {
    Default,
    Expr(BoolExpr),
}

} // verus!
