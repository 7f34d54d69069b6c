use vstd::prelude::*;

verus! {

/// A binary operator of the compiled language.
#[derive(Debug, Clone, Copy, PartialEq, Eq, Hash)]
pub enum BinOp {
    /// Addition `+`
    Add,
    /// Subtraction `-`
    Sub,
    /// Multiplication `*`
    Mul,
    /// Less-than `<`
    Lt,
    /// Greater-than `>`
    Gt,
    /// Less-or-equal `<=`
    Le,
    /// Greater-or-equal `>=`
    Ge,
    /// Equal `==`
    Eq,
    /// Not-equal `!=`
    Ne,
}

/// An expression of the compiled language (it has a value).
#[derive(Debug, PartialEq)]
pub enum Expr {
    /// A non-negative integer literal.
    Integer(i64),
    /// A variable reference.
    Variable(String),
    /// A binary operation.
    BinOp { op: BinOp, lhs: Box<Expr>, rhs: Box<Expr> },
    /// A function call.
    Call { callee: String, args: Vec<Expr> },
}

/// A statement of the compiled language.
#[derive(Debug, PartialEq)]
pub enum Stmt {
    /// Variable declaration: `const name;` or `const name = expr;`
    VarDecl { name: String, init: Option<Expr> },
    /// Assignment to an existing variable: `name = expr;`
    Assign { name: String, value: Expr },
    /// Return statement: `return expr;`
    Return(Expr),
    /// While loop: `while cond { body }`.
    While { cond: Expr, body: Vec<Stmt> },
    /// Conditional statement: `if cond { then_body } else { else_body }`.
    If { cond: Expr, then_body: Vec<Stmt>, else_body: Vec<Stmt> },
    /// An expression used as a statement: `expr;`
    Expr(Expr),
}

/// A top-level function definition.
#[derive(Debug, PartialEq)]
pub struct Function {
    pub name: String,
    pub params: Vec<String>,
    pub body: Vec<Stmt>,
}

} // verus!
