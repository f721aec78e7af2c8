//! The abstract syntax tree produced by the parser.
//!
//! Operator precedence and associativity are encoded purely by tree
//! shape: higher-precedence operators sit deeper, and left-associative
//! operators lean left. `Expression` carries no strings, so it serves as
//! its own specification-level model; `FunctionDefinition` and `Program`
//! carry a `String` name and therefore have view types over `Seq<char>`.
use vstd::prelude::*;

verus! {

#[derive(Debug, PartialEq, Eq)]
pub struct Program {
    pub function_definition: FunctionDefinition,
}

#[derive(Debug, PartialEq, Eq)]
pub struct FunctionDefinition {
    pub name: String,
    pub body: Statement,
}

#[derive(Debug, PartialEq, Eq)]
pub enum Statement {
    Return(Expression),
}

#[derive(Debug, PartialEq, Eq)]
pub enum Expression {
    Constant(i32),
    Unary(UnaryOperation, Box<Expression>),
    Binary(BinaryOperation, Box<Expression>, Box<Expression>),
}

#[derive(Clone, Copy, Debug, PartialEq, Eq)]
pub enum UnaryOperation {
    Complement,
    Negate,
}

#[derive(Clone, Copy, Debug, PartialEq, Eq)]
pub enum BinaryOperation {
    Add,
    Subtract,
    Multiply,
    Divide,
    Remainder,
}

/// The mathematical model of a `FunctionDefinition`: the name as a
/// sequence of characters, the body as it is.
pub struct FunctionDefinitionView {
    pub name: Seq<char>,
    pub body: Statement,
}

/// The mathematical model of a `Program`.
pub struct ProgramView {
    pub function_definition: FunctionDefinitionView,
}

impl View for FunctionDefinition {
    type V = FunctionDefinitionView;

    open spec fn view(&self) -> FunctionDefinitionView {
        FunctionDefinitionView { name: self.name@, body: self.body }
    }
}

impl View for Program {
    type V = ProgramView;

    open spec fn view(&self) -> ProgramView {
        ProgramView { function_definition: self.function_definition@ }
    }
}

} // verus!
