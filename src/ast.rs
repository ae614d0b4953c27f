//! The syntax tree that the parser builds and the evaluator walks.
use vstd::prelude::*;
use crate::values::Value;

verus! {

#[derive(Clone, Copy, Debug, PartialEq, Eq, Structural)]
pub enum BinOp {
    Add,
    Sub,
    Mul,
    Div,
    Mod,
    Concat,
    Eq,
    Ne,
    Lt,
    Le,
    Gt,
    Ge,
    And,
    Or,
}

#[derive(Clone, Copy, Debug, PartialEq, Eq, Structural)]
pub enum UnOp {
    Neg,
    Not,
    Len,
}

#[derive(Debug)]
pub enum Expr {
    Binary(Box<Expr>, BinOp, Box<Expr>),
    Unary(Box<Expr>, UnOp),
    /// `nil`, a boolean, a number or a string.
    Literal(Value),
    /// A parenthesised list; its value is the first value of the list.
    Grouping(Box<Expr>),
    Var(String),
    Exprlist(Vec<Expr>),
    FunctionCall(Box<Expr>, Vec<Expr>),
    /// The table, then the key.
    Accessor(Box<Expr>, Box<Expr>),
    /// Table constructor: keys and values in source order.
    FieldList(Vec<(Expr, Expr)>),
    Varargs,
    /// A function literal: the index of its definition in the program.
    Function(usize),
}

#[derive(Debug)]
pub enum Stmt {
    Break,
    Empty,
    ExprStmt(Expr),
    /// Targets, then values.
    Assignment(Vec<Expr>, Vec<Expr>),
    LocalAssignment(Vec<String>, Vec<Expr>),
    DoBlock(Vec<Stmt>),
    /// Condition, then-block, else-block (an `elseif` is an `if` alone in it).
    IfStmt(Expr, Vec<Stmt>, Vec<Stmt>),
    WhileLoop(Expr, Vec<Stmt>),
    RepeatUntilLoop(Vec<Stmt>, Expr),
    /// Control variable, start, limit, step, body.
    NumericForLoop(String, Expr, Expr, Expr, Vec<Stmt>),
    Return(Vec<Expr>),
    /// The top-level block.
    Chunk(Vec<Stmt>),
}

/// A function definition: its parameters, whether it takes `...`, its body
/// and its name, if it was defined by a `function name` statement.
#[derive(Debug)]
pub struct Proto {
    pub params: Vec<String>,
    pub is_vararg: bool,
    pub body: Vec<Stmt>,
    pub name: Option<String>,
}

/// A parsed source text: the function definitions it holds, and its chunk.
#[derive(Debug)]
pub struct Program {
    pub protos: Vec<Proto>,
    pub body: Vec<Stmt>,
}

} // verus!
