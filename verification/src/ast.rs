//! The lowered R syntax tree the checker walks.
use vstd::prelude::*;
use crate::types::RType;

verus! {

/// Byte range of a syntax node in its source file.
#[derive(Clone, Copy, PartialEq, Eq, Debug, Structural)]
pub struct Span {
    pub start: usize,
    pub end: usize,
}

/// What the checker reads of a double literal: its value when it is a
/// finite whole number (saturated to the `i64` range), whether it is
/// greater than zero, and its value truncated toward zero when it is
/// finite, not negative and below `usize::MAX`.
#[derive(Clone, Copy, PartialEq, Eq, Debug, Structural)]
pub struct DoubleLit {
    pub whole: Option<i64>,
    pub positive: bool,
    pub trunc: Option<usize>,
}

#[derive(Clone, Copy, PartialEq, Eq, Debug, Structural)]
pub enum BinOpKind {
    Add,
    Sub,
    Mul,
    Div,
    Pow,
    Mod,
    IDiv,
    Colon,
    Lt,
    Le,
    Gt,
    Ge,
    Eq,
    Ne,
    And,
    AndAnd,
    Or,
    OrOr,
    In,
    Assign,
    SuperAssign,
    PipeForward,
    PipeNative,
    PipeTee,
    PipeAssign,
}

#[derive(Clone, Copy, PartialEq, Eq, Debug, Structural)]
pub enum UnaryOpKind {
    Neg,
    Not,
}

/// The subscript form: `x[i]`, `x[[i]]`, `x$name` or `x@name`.
#[derive(Clone, Copy, PartialEq, Eq, Debug, Structural)]
pub enum IndexKind {
    Single,
    Double,
    Dollar,
    /// `x@name`, an S4 slot.
    Slot,
}

/// An expression.
#[derive(Debug)]
pub enum Expr {
    Logical(bool, Span),
    Integer(i64, Span),
    Double(DoubleLit, Span),
    String(String, Span),
    Null(Span),
    Na(RType, Span),
    Ident { name: String, span: Span },
    Call { func: Box<Expr>, args: Vec<Arg>, span: Span },
    BinOp { op: BinOpKind, lhs: Box<Expr>, rhs: Box<Expr>, span: Span },
    UnaryOp { op: UnaryOpKind, expr: Box<Expr>, span: Span },
    Index { base: Box<Expr>, kind: IndexKind, args: Vec<Arg>, span: Span },
    Function { params: Vec<Param>, body: Vec<Stmt>, span: Span },
    Block { body: Vec<Stmt>, span: Span },
    If { cond: Box<Expr>, then: Box<Expr>, else_: Option<Box<Expr>>, span: Span },
    Unknown(Span),
    /// An empty argument slot, as in `x[, 1]` or `f(a = )`.
    Missing(Span),
}

/// A call argument, optionally named.
#[derive(Debug)]
pub struct Arg {
    pub name: Option<String>,
    pub value: Expr,
    pub span: Span,
}

/// A formal parameter of a function, with its default expression.
#[derive(Debug)]
pub struct Param {
    pub name: String,
    pub default: Option<Expr>,
}

/// A statement.
#[derive(Debug)]
pub enum Stmt {
    /// `target <- value`. A superassignment `x <<- v` lowers to an
    /// assignment whose value is the `SuperAssign` binary operation.
    Assign { target: Expr, value: Expr, span: Span },
    Expr(Expr),
    If { cond: Expr, then: Vec<Stmt>, else_: Option<Vec<Stmt>>, span: Span },
    For { name: String, iter: Expr, body: Vec<Stmt>, span: Span },
    While { cond: Expr, body: Vec<Stmt>, span: Span },
    FunctionDef { name: Option<String>, params: Vec<Param>, body: Vec<Stmt>, span: Span },
    Return { value: Option<Expr>, span: Span },
}

/// Whether `e` is the identifier `name`.
pub open spec fn is_ident_named(e: Expr, name: Seq<char>) -> bool {
    e matches Expr::Ident { name: n, .. } && n@ == name
}

/// A call argument's value is structurally smaller than the call.
pub proof fn lemma_call_arg_decreases(e: Expr, i: int)
    requires
        e is Call,
        0 <= i < e->Call_args@.len(),
    ensures
        decreases_to!(e => e->Call_args@[i].value),
{
    let args = e->Call_args;
    assert(decreases_to!(e => args));
    assert(decreases_to!(args => args@));
    assert(decreases_to!(args@ => args@[i]));
    assert(decreases_to!(args@[i] => args@[i].value));
}

/// Whether `e` names the identifier `name`.
pub fn ident_is(e: &Expr, name: &str) -> (r: bool)
    ensures
        r == is_ident_named(*e, name@),
{
    match e {
        Expr::Ident { name: n, .. } => crate::text::str_eq(n.as_str(), name),
        _ => false,
    }
}

} // verus!
