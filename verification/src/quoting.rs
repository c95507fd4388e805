//! Rules about promises and captured expressions: which operators evaluate
//! their operands lazily, which statements cannot replace a binding before
//! a promise is forced, and which capture helpers a default may use.
use vstd::prelude::*;
use crate::ast::{BinOpKind, Expr, Stmt};
use crate::force::{package_spec, qualifier_package};
use crate::subscript::{bare_name, bare_spec};
use crate::text::{starts_with, str_eq};

verus! {

/// Whether a binary operator hands its operands to a callee unevaluated:
/// the pipes and `%in%`.
pub open spec fn opaque_op_spec(op: BinOpKind) -> bool {
    ||| op == BinOpKind::PipeNative
    ||| op == BinOpKind::PipeForward
    ||| op == BinOpKind::PipeTee
    ||| op == BinOpKind::PipeAssign
    ||| op == BinOpKind::In
}

/// Whether a binary operator is a call with lazy arguments rather than an
/// operator that evaluates its operands.
pub fn opaque_binary_operator(op: &BinOpKind) -> (r: bool)
    ensures
        r == opaque_op_spec(*op),
{
    match op {
        BinOpKind::PipeNative | BinOpKind::PipeForward | BinOpKind::PipeTee | BinOpKind::PipeAssign
        | BinOpKind::In => true,
        BinOpKind::Add | BinOpKind::Sub | BinOpKind::Mul | BinOpKind::Div | BinOpKind::Pow
        | BinOpKind::Mod | BinOpKind::IDiv | BinOpKind::Colon | BinOpKind::Lt | BinOpKind::Le
        | BinOpKind::Gt | BinOpKind::Ge | BinOpKind::Eq | BinOpKind::Ne | BinOpKind::And
        | BinOpKind::AndAnd | BinOpKind::Or | BinOpKind::OrOr | BinOpKind::Assign
        | BinOpKind::SuperAssign => false,
    }
}

/// Whether a name is written with backticks.
pub open spec fn backticked(s: Seq<char>) -> bool {
    s.len() > 0 && s[0] == '`'
}

/// Two names that are plainly different bindings: neither is written with
/// backticks (which could spell the other) and they differ.
pub open spec fn distinct_spec(left: Seq<char>, right: Seq<char>) -> bool {
    !backticked(left) && !backticked(right) && left != right
}

/// Whether `left` and `right` are plainly different bindings.
pub fn plain_distinct_bindings(left: &str, right: &str) -> (r: bool)
    ensures
        r == distinct_spec(left@, right@),
{
    let l = starts_with(left, "`");
    let rt = starts_with(right, "`");
    proof {
        reveal_strlit("`");
        assert("`"@.len() == 1 && "`"@[0] == '`');
        if left@.len() > 0 {
            assert(left@.subrange(0, 1)[0] == left@[0]);
            if left@[0] == '`' {
                assert(left@.subrange(0, 1) =~= "`"@);
            }
        }
        if right@.len() > 0 {
            assert(right@.subrange(0, 1)[0] == right@[0]);
            if right@[0] == '`' {
                assert(right@.subrange(0, 1) =~= "`"@);
            }
        }
    }
    !l && !rt && !str_eq(left, right)
}

/// Whether statements `ss[i..]` all leave the binding `w` in place.
pub open spec fn stmts_preserve(ss: Seq<Stmt>, i: int, w: Seq<char>) -> bool
    decreases ss, ss.len() - i,
{
    if i < 0 || i >= ss.len() {
        true
    } else {
        stmt_preserves(ss[i], w) && stmts_preserve(ss, i + 1, w)
    }
}

/// Whether a statement certainly leaves the binding `w` in place and runs
/// no user code: an assignment of a plainly different name from a value
/// that preserves it, a definition, or an `if` with a literal condition
/// whose taken branch preserves it.
pub open spec fn stmt_preserves(s: Stmt, w: Seq<char>) -> bool
    decreases s, 1int,
{
    match s {
        Stmt::Assign { target, value, .. } => match target {
            Expr::Ident { name, .. } => distinct_spec(name@, w) && expr_preserves(value, w),
            _ => false,
        },
        Stmt::Expr(value) => expr_preserves(value, w),
        Stmt::FunctionDef { .. } => true,
        Stmt::If { cond, then, else_, .. } => match cond {
            Expr::Logical(true, _) => stmts_preserve(then@, 0, w),
            Expr::Logical(false, _) => match else_ {
                Some(b) => stmts_preserve(b@, 0, w),
                None => true,
            },
            _ => false,
        },
        _ => false,
    }
}

/// Whether evaluating an expression certainly leaves the binding `w` in
/// place and runs no user code: a literal or function literal, an
/// assignment of a plainly different name, a block of such statements, or
/// an `if` with a literal condition whose taken branch preserves it.
pub open spec fn expr_preserves(e: Expr, w: Seq<char>) -> bool
    decreases e, 0int,
{
    match e {
        Expr::Logical(..) | Expr::Integer(..) | Expr::Double(..) | Expr::String(..) | Expr::Null(..)
        | Expr::Na(..) | Expr::Function { .. } => true,
        Expr::BinOp { op: BinOpKind::Assign, lhs, rhs, .. } => match *lhs {
            Expr::Ident { name, .. } => distinct_spec(name@, w) && expr_preserves(*rhs, w),
            _ => false,
        },
        Expr::Block { body, .. } => stmts_preserve(body@, 0, w),
        Expr::If { cond, then, else_, .. } => match *cond {
            Expr::Logical(true, _) => expr_preserves(*then, w),
            Expr::Logical(false, _) => match else_ {
                Some(b) => expr_preserves(*b, w),
                None => true,
            },
            _ => false,
        },
        _ => false,
    }
}

/// Whether every statement of `body` preserves the binding `wanted`.
fn body_preserves_binding(body: &Vec<Stmt>, wanted: &str) -> (r: bool)
    ensures
        r == stmts_preserve(body@, 0, wanted@),
    decreases body, 2int,
{
    let mut i: usize = 0;
    while i < body.len()
        invariant
            i <= body@.len(),
            stmts_preserve(body@, 0, wanted@) == stmts_preserve(body@, i as int, wanted@),
        decreases body.len() - i,
    {
        proof {
            assert(decreases_to!(body => body@));
            assert(decreases_to!(body@ => body@[i as int]));
        }
        if !statement_preserves_binding(&body[i], wanted) {
            return false;
        }
        i = i + 1;
    }
    true
}

/// Whether a statement certainly leaves the binding `wanted` in place.
pub fn statement_preserves_binding(statement: &Stmt, wanted: &str) -> (r: bool)
    ensures
        r == stmt_preserves(*statement, wanted@),
    decreases statement, 1int,
{
    match statement {
        Stmt::Assign { target: Expr::Ident { name, .. }, value, .. } => {
            plain_distinct_bindings(name.as_str(), wanted) && expression_preserves_binding(value, wanted)
        },
        Stmt::Expr(value) => expression_preserves_binding(value, wanted),
        Stmt::FunctionDef { .. } => true,
        Stmt::If { cond, then, else_, .. } => match cond {
            Expr::Logical(true, _) => body_preserves_binding(then, wanted),
            Expr::Logical(false, _) => match else_ {
                Some(body) => body_preserves_binding(body, wanted),
                None => true,
            },
            _ => false,
        },
        _ => false,
    }
}

/// Whether evaluating an expression certainly leaves the binding `wanted`
/// in place.
pub fn expression_preserves_binding(expression: &Expr, wanted: &str) -> (r: bool)
    ensures
        r == expr_preserves(*expression, wanted@),
    decreases expression, 0int,
{
    match expression {
        Expr::Logical(..) | Expr::Integer(..) | Expr::Double(..) | Expr::String(..) | Expr::Null(..)
        | Expr::Na(..) | Expr::Function { .. } => true,
        Expr::BinOp { lhs, rhs, op: BinOpKind::Assign, .. } => match &**lhs {
            Expr::Ident { name, .. } => plain_distinct_bindings(name.as_str(), wanted)
                && expression_preserves_binding(rhs, wanted),
            _ => false,
        },
        Expr::Block { body, .. } => body_preserves_binding(body, wanted),
        Expr::If { cond, then, else_, .. } => match &**cond {
            Expr::Logical(true, _) => expression_preserves_binding(then, wanted),
            Expr::Logical(false, _) => match else_ {
                Some(branch) => expression_preserves_binding(branch, wanted),
                None => true,
            },
            _ => false,
        },
        _ => false,
    }
}

/// How a default's capture helper receives its argument.
#[derive(Clone, Copy, PartialEq, Eq, Debug, Structural)]
pub enum DefaultCapture {
    /// Captured verbatim (`base::quote`, `base::substitute`,
    /// `base::expression`).
    Literal,
    /// Captured with tidy injection (`rlang::expr`).
    Tidy,
}

/// The capture helper a qualified name calls, if it is one.
pub open spec fn capture_spec(name: Seq<char>) -> Option<DefaultCapture> {
    let f = bare_spec(name);
    if package_spec(name) == Some("base"@) && (f == "quote"@ || f == "substitute"@ || f
        == "expression"@) {
        Some(DefaultCapture::Literal)
    } else if package_spec(name) == Some("rlang"@) && f == "expr"@ {
        Some(DefaultCapture::Tidy)
    } else {
        None
    }
}

/// The capture mode of an explicitly qualified capture helper. Bare names
/// may be masked, so only `pkg::` and `pkg:::` forms count.
pub fn default_capture_mode(name: &str) -> (r: Option<DefaultCapture>)
    ensures
        r == capture_spec(name@),
{
    let package = match qualifier_package(name) {
        Some(p) => p,
        None => return None,
    };
    let function = bare_name(name);
    let f = function.as_str();
    proof {
        reveal_strlit("quote");
        reveal_strlit("substitute");
        reveal_strlit("expression");
        reveal_strlit("expr");
        reveal_strlit("base");
        reveal_strlit("rlang");
    }
    if str_eq(package.as_str(), "base") && (str_eq(f, "quote") || str_eq(f, "substitute") || str_eq(
        f,
        "expression",
    )) {
        Some(DefaultCapture::Literal)
    } else if str_eq(package.as_str(), "rlang") && str_eq(f, "expr") {
        Some(DefaultCapture::Tidy)
    } else {
        None
    }
}

} // verus!
