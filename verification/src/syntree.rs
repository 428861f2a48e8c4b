//! The syntax tree of calculator programs: a list of statements, each either an
//! expression or an assignment of an expression to a variable `a` to `z`.
use vstd::prelude::*;

verus! {

/// An arithmetic expression.
#[derive(Debug)]
pub enum Expr {
    Int(i64),
    Var(char),
    Add(Box<Expr>, Box<Expr>),
    Sub(Box<Expr>, Box<Expr>),
    Mul(Box<Expr>, Box<Expr>),
    Div(Box<Expr>, Box<Expr>),
}

/// A statement: an expression whose value becomes the result, or an
/// assignment of the value to a variable.
#[derive(Debug)]
pub enum Stmt {
    Expr(Expr),
    Assign(char, Expr),
}

/// The root of a calculator program.
#[derive(Debug)]
pub struct Root {
    pub stmt_list: Vec<Stmt>,
}

impl Root {
    /// A program of the single statement `stmt`.
    pub fn from_stmt(stmt: Stmt) -> (root: Root)
        ensures
            root.stmt_list@ == seq![stmt],
    {
        let mut stmt_list = Vec::new();
        stmt_list.push(stmt);
        Root { stmt_list }
    }
}

impl Stmt {
    /// The statement `lhs + rhs`.
    pub fn add(lhs: i64, rhs: i64) -> (s: Stmt)
        ensures
            s == Stmt::Expr(Expr::Add(Box::new(Expr::Int(lhs)), Box::new(Expr::Int(rhs)))),
    {
        Stmt::Expr(Expr::Add(Box::new(Expr::Int(lhs)), Box::new(Expr::Int(rhs))))
    }

    /// The statement `lhs - rhs`.
    pub fn sub(lhs: i64, rhs: i64) -> (s: Stmt)
        ensures
            s == Stmt::Expr(Expr::Sub(Box::new(Expr::Int(lhs)), Box::new(Expr::Int(rhs)))),
    {
        Stmt::Expr(Expr::Sub(Box::new(Expr::Int(lhs)), Box::new(Expr::Int(rhs))))
    }

    /// The statement `lhs * rhs`.
    pub fn mul(lhs: i64, rhs: i64) -> (s: Stmt)
        ensures
            s == Stmt::Expr(Expr::Mul(Box::new(Expr::Int(lhs)), Box::new(Expr::Int(rhs)))),
    {
        Stmt::Expr(Expr::Mul(Box::new(Expr::Int(lhs)), Box::new(Expr::Int(rhs))))
    }

    /// The statement `lhs / rhs`.
    pub fn div(lhs: i64, rhs: i64) -> (s: Stmt)
        ensures
            s == Stmt::Expr(Expr::Div(Box::new(Expr::Int(lhs)), Box::new(Expr::Int(rhs)))),
    {
        Stmt::Expr(Expr::Div(Box::new(Expr::Int(lhs)), Box::new(Expr::Int(rhs))))
    }

    /// The statement `name = value`.
    pub fn set(name: char, value: i64) -> (s: Stmt)
        ensures
            s == Stmt::Assign(name, Expr::Int(value)),
    {
        Stmt::Assign(name, Expr::Int(value))
    }
}

} // verus!
