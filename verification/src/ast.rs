use vstd::prelude::*;

verus! {

/// Binary arithmetic and comparison operators of the source language.
/// Each maps one-to-one onto a bytecode opcode.
#[derive(Clone, Copy, PartialEq, Eq, Structural, Debug)]
pub enum BinOp {
    Add,
    Sub,
    Mul,
    Mod,
    Eq,
    NEq,
    Lt,
    Gt,
    Lte,
    Gte,
}

/// Logical connectives of the source language.
#[derive(Clone, Copy, PartialEq, Eq, Structural, Debug)]
pub enum LogOp {
    And,
    Or,
}

/// An expression of the source language, as handed over by the front end.
/// Numbers and booleans share one unsigned-integer representation at
/// runtime; assignment is expression-valued in the grammar but leaves
/// nothing on the operand stack.
#[allow(inconsistent_fields)]
pub enum Expr {
    Number(u64),
    Boolean(bool),
    Variable(String),
    Assign { name: String, value: Box<Expr> },
    Binary { left: Box<Expr>, op: BinOp, right: Box<Expr> },
    Logical { left: Box<Expr>, op: LogOp, right: Box<Expr> },
    Grouping(Box<Expr>),
}

/// A statement of the source language. A block introduces no scope:
/// there is a single global variable table.
pub enum Stmt {
    Expression(Expr),
    Print(Expr),
    If { condition: Expr, then_branch: Box<Stmt>, else_branch: Option<Box<Stmt>> },
    While { condition: Expr, body: Box<Stmt> },
    Block(Vec<Stmt>),
}

} // verus!
