//! The abstract syntax tree the compiler consumes. The tree arrives
//! already parsed; the compiler walks it read-only and never sees source
//! text. Function literals may carry a parameter list and calls an
//! argument list, but neither is compiled: calls pass no arguments in
//! this design.

use vstd::prelude::*;

verus! {

/// The operator token carried by a prefix or infix expression. `Assign`
/// is never a valid operator; the compiler reports it as unknown.
#[derive(Clone, Copy, PartialEq, Eq, Structural, Debug)]
pub enum Token {
    Plus,
    Minus,
    Asterisk,
    Slash,
    Bang,
    LT,
    GT,
    LTE,
    GTE,
    Equal,
    NotEqual,
    And,
    Or,
    Assign,
}

/// A parsed program: the ordered top-level statements.
pub struct Program {
    pub statements: Vec<Statement>,
}

/// A braced block of statements (a conditional arm or a function body).
pub struct BlockStatement {
    pub statements: Vec<Statement>,
}

pub enum Statement {
    Expression(Expression),
    Let(LetStatement),
    Return(ReturnStatement),
}

/// `let <name> = <value>;`
pub struct LetStatement {
    pub name: String,
    pub value: Expression,
}

/// `return <return_value>;`
pub struct ReturnStatement {
    pub return_value: Expression,
}

/// A literal: integer, boolean or string.
pub enum Primitive {
    IntegerLiteral(i64),
    BooleanLiteral(bool),
    StringLiteral(String),
}

/// `<left> <token> <right>`
pub struct InfixOperator {
    pub token: Token,
    pub left: Box<Expression>,
    pub right: Box<Expression>,
}

/// `<token><right>`
pub struct PrefixOperator {
    pub token: Token,
    pub right: Box<Expression>,
}

/// A variable reference.
pub struct Identifier {
    pub value: String,
}

/// `if (<condition>) { <consequence> } else { <alternative> }`; the
/// alternative arm is optional.
pub struct Conditional {
    pub condition: Box<Expression>,
    pub consequence: BlockStatement,
    pub alternative: Option<BlockStatement>,
}

/// `[<elements>, ...]`
pub struct ArrayLiteral {
    pub elements: Vec<Expression>,
}

/// `{<key>: <value>, ...}`
pub struct HashMapLiteral {
    pub pairs: Vec<(Expression, Expression)>,
}

/// `<left>[<index>]`
pub struct IndexExpression {
    pub left: Box<Expression>,
    pub index: Box<Expression>,
}

/// `fn(<parameters>) { <body> }`; parameters are carried but not compiled.
pub struct FunctionLiteral {
    pub parameters: Vec<String>,
    pub body: BlockStatement,
}

/// `<function>(<arguments>)`; arguments are carried but not compiled.
pub struct FunctionCall {
    pub function: Box<Expression>,
    pub arguments: Vec<Expression>,
}

pub enum Expression {
    Infix(InfixOperator),
    Prefix(PrefixOperator),
    Primitive(Primitive),
    Conditional(Conditional),
    Identifier(Identifier),
    ArrayLiteral(ArrayLiteral),
    HashMapLiteral(HashMapLiteral),
    IndexExpression(IndexExpression),
    FunctionLiteral(FunctionLiteral),
    FunctionCall(FunctionCall),
}

} // verus!
