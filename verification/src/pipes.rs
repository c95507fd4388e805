//! Pipe placeholders, and names written with escapes.
use vstd::prelude::*;
use crate::ast::{Arg, BinOpKind, Expr, Param, Stmt};
use crate::text::str_eq;

verus! {

/// Which pipe operator introduced a right-hand side: magrittr's pipes bind
/// `.`, the native `|>` binds `_`.
#[derive(Clone, Copy, PartialEq, Eq, Debug, Structural)]
pub enum PipeForm {
    Magrittr,
    Native,
}

/// The pipe form of an operator: native for `|>`, magrittr otherwise.
pub open spec fn form_of(op: BinOpKind) -> PipeForm {
    if op == BinOpKind::PipeNative {
        PipeForm::Native
    } else {
        PipeForm::Magrittr
    }
}

/// The placeholder name of a pipe form.
pub open spec fn placeholder_text(form: PipeForm) -> Seq<char> {
    match form {
        PipeForm::Magrittr => "."@,
        PipeForm::Native => "_"@,
    }
}

/// Whether `e` is the placeholder of `form`.
pub open spec fn placeholder_spec(form: PipeForm, e: Expr) -> bool {
    e matches Expr::Ident { name, .. } && name@ == placeholder_text(form)
}

/// Whether `e` is an extraction chain rooted at `form`'s placeholder, such
/// as `_$mpg` or `.$mpg[1]`.
pub open spec fn placeholder_chain_spec(e: Expr, form: PipeForm) -> bool
    decreases e,
{
    match e {
        Expr::Index { base, .. } => placeholder_spec(form, *base) || placeholder_chain_spec(*base, form),
        _ => false,
    }
}

impl PipeForm {
    /// The pipe form `op` introduces.
    pub fn of(op: BinOpKind) -> (r: PipeForm)
        ensures
            r == form_of(op),
    {
        match op {
            BinOpKind::PipeNative => PipeForm::Native,
            _ => PipeForm::Magrittr,
        }
    }

    /// Whether `e` is this form's placeholder.
    pub fn is_placeholder(self, e: &Expr) -> (r: bool)
        ensures
            r == placeholder_spec(self, *e),
    {
        proof {
            reveal_strlit(".");
            reveal_strlit("_");
        }
        match e {
            Expr::Ident { name, .. } => match self {
                PipeForm::Magrittr => str_eq(name.as_str(), "."),
                PipeForm::Native => str_eq(name.as_str(), "_"),
            },
            _ => false,
        }
    }
}

/// Whether `e` is an extraction chain rooted at `form`'s placeholder.
pub fn is_placeholder_chain(e: &Expr, form: PipeForm) -> (r: bool)
    ensures
        r == placeholder_chain_spec(*e, form),
    decreases e,
{
    match e {
        Expr::Index { base, .. } => form.is_placeholder(base) || is_placeholder_chain(base, form),
        _ => false,
    }
}

/// A parsed source file.
#[derive(Debug)]
pub struct SourceFile {
    pub stmts: Vec<Stmt>,
}

/// Whether a name holds a backslash escape.
pub open spec fn escaped(s: Seq<char>) -> bool {
    exists|i: int| 0 <= i < s.len() && s[i] == '\\'
}

/// Whether some name in `ss[i..]` is escaped: an identifier, a `for`
/// variable, or a formal, anywhere in the tree.
pub open spec fn escaped_in_stmts(ss: Seq<Stmt>, i: int) -> bool
    decreases ss, ss.len() - i,
{
    if i < 0 || i >= ss.len() {
        false
    } else {
        escaped_in_stmt(ss[i]) || escaped_in_stmts(ss, i + 1)
    }
}

/// Whether some formal of `ps[i..]`, or a name in its default, is escaped.
pub open spec fn escaped_in_params(ps: Seq<Param>, i: int) -> bool
    decreases ps, ps.len() - i,
{
    if i < 0 || i >= ps.len() {
        false
    } else {
        escaped(ps[i].name@) || (match ps[i].default {
            Some(d) => escaped_in_expr(d),
            None => false,
        }) || escaped_in_params(ps, i + 1)
    }
}

/// Whether some name in the argument values `args[i..]` is escaped.
pub open spec fn escaped_in_args(args: Seq<Arg>, i: int) -> bool
    decreases args, args.len() - i,
{
    if i < 0 || i >= args.len() {
        false
    } else {
        escaped_in_expr(args[i].value) || escaped_in_args(args, i + 1)
    }
}

/// Whether some name in a statement is escaped.
pub open spec fn escaped_in_stmt(s: Stmt) -> bool
    decreases s, 0int,
{
    match s {
        Stmt::Assign { target, value, .. } => escaped_in_expr(target) || escaped_in_expr(value),
        Stmt::Expr(e) => escaped_in_expr(e),
        Stmt::If { cond, then, else_, .. } => escaped_in_expr(cond) || escaped_in_stmts(then@, 0) || match else_ {
            Some(b) => escaped_in_stmts(b@, 0),
            None => false,
        },
        Stmt::For { name, iter, body, .. } => escaped(name@) || escaped_in_expr(iter) || escaped_in_stmts(body@, 0),
        Stmt::While { cond, body, .. } => escaped_in_expr(cond) || escaped_in_stmts(body@, 0),
        Stmt::FunctionDef { params, body, .. } => escaped_in_params(params@, 0) || escaped_in_stmts(body@, 0),
        Stmt::Return { value, .. } => match value {
            Some(v) => escaped_in_expr(v),
            None => false,
        },
    }
}

/// Whether some name in an expression is escaped.
pub open spec fn escaped_in_expr(e: Expr) -> bool
    decreases e, 0int,
{
    match e {
        Expr::Ident { name, .. } => escaped(name@),
        Expr::Call { func, args, .. } => escaped_in_expr(*func) || escaped_in_args(args@, 0),
        Expr::BinOp { lhs, rhs, .. } => escaped_in_expr(*lhs) || escaped_in_expr(*rhs),
        Expr::UnaryOp { expr, .. } => escaped_in_expr(*expr),
        Expr::Index { base, args, .. } => escaped_in_expr(*base) || escaped_in_args(args@, 0),
        Expr::Function { params, body, .. } => escaped_in_params(params@, 0) || escaped_in_stmts(body@, 0),
        Expr::Block { body, .. } => escaped_in_stmts(body@, 0),
        Expr::If { cond, then, else_, .. } => escaped_in_expr(*cond) || escaped_in_expr(*then) || match else_ {
            Some(b) => escaped_in_expr(*b),
            None => false,
        },
        _ => false,
    }
}

/// Whether a name holds a backslash.
fn has_backslash(s: &str) -> (r: bool)
    ensures
        r == escaped(s@),
{
    let n = s.unicode_len();
    let mut i: usize = 0;
    while i < n
        invariant
            n == s@.len(),
            i <= n,
            forall|k: int| 0 <= k < i ==> s@[k] != '\\',
        decreases n - i,
    {
        if s.get_char(i) == '\\' {
            return true;
        }
        i = i + 1;
    }
    false
}

fn stmts_escaped(ss: &Vec<Stmt>) -> (r: bool)
    ensures
        r == escaped_in_stmts(ss@, 0),
    decreases ss, 1int,
{
    let mut i: usize = 0;
    while i < ss.len()
        invariant
            i <= ss@.len(),
            escaped_in_stmts(ss@, 0) == escaped_in_stmts(ss@, i as int),
        decreases ss.len() - i,
    {
        proof {
            assert(decreases_to!(ss => ss@));
            assert(decreases_to!(ss@ => ss@[i as int]));
        }
        if stmt_escaped(&ss[i]) {
            return true;
        }
        i = i + 1;
    }
    false
}

fn params_escaped(ps: &Vec<Param>) -> (r: bool)
    ensures
        r == escaped_in_params(ps@, 0),
    decreases ps, 1int,
{
    let mut i: usize = 0;
    while i < ps.len()
        invariant
            i <= ps@.len(),
            escaped_in_params(ps@, 0) == escaped_in_params(ps@, i as int),
        decreases ps.len() - i,
    {
        proof {
            assert(decreases_to!(ps => ps@));
            assert(decreases_to!(ps@ => ps@[i as int]));
        }
        if has_backslash(ps[i].name.as_str()) {
            return true;
        }
        if let Some(d) = &ps[i].default {
            proof {
                assert(decreases_to!(ps@[i as int] => ps@[i as int].default));
            }
            if expr_escaped(d) {
                return true;
            }
        }
        i = i + 1;
    }
    false
}

fn args_escaped(args: &Vec<Arg>) -> (r: bool)
    ensures
        r == escaped_in_args(args@, 0),
    decreases args, 1int,
{
    let mut i: usize = 0;
    while i < args.len()
        invariant
            i <= args@.len(),
            escaped_in_args(args@, 0) == escaped_in_args(args@, i as int),
        decreases args.len() - i,
    {
        proof {
            assert(decreases_to!(args => args@));
            assert(decreases_to!(args@ => args@[i as int]));
        }
        if expr_escaped(&args[i].value) {
            return true;
        }
        i = i + 1;
    }
    false
}

fn stmt_escaped(s: &Stmt) -> (r: bool)
    ensures
        r == escaped_in_stmt(*s),
    decreases s, 0int,
{
    match s {
        Stmt::Assign { target, value, .. } => expr_escaped(target) || expr_escaped(value),
        Stmt::Expr(e) => expr_escaped(e),
        Stmt::If { cond, then, else_, .. } => {
            expr_escaped(cond) || stmts_escaped(then) || match else_ {
                Some(b) => stmts_escaped(b),
                None => false,
            }
        },
        Stmt::For { name, iter, body, .. } => has_backslash(name.as_str()) || expr_escaped(iter) || stmts_escaped(body),
        Stmt::While { cond, body, .. } => expr_escaped(cond) || stmts_escaped(body),
        Stmt::FunctionDef { params, body, .. } => params_escaped(params) || stmts_escaped(body),
        Stmt::Return { value, .. } => match value {
            Some(v) => expr_escaped(v),
            None => false,
        },
    }
}

fn expr_escaped(e: &Expr) -> (r: bool)
    ensures
        r == escaped_in_expr(*e),
    decreases e, 0int,
{
    match e {
        Expr::Ident { name, .. } => has_backslash(name.as_str()),
        Expr::Call { func, args, .. } => expr_escaped(func) || args_escaped(args),
        Expr::BinOp { lhs, rhs, .. } => expr_escaped(lhs) || expr_escaped(rhs),
        Expr::UnaryOp { expr, .. } => expr_escaped(expr),
        Expr::Index { base, args, .. } => expr_escaped(base) || args_escaped(args),
        Expr::Function { params, body, .. } => params_escaped(params) || stmts_escaped(body),
        Expr::Block { body, .. } => stmts_escaped(body),
        Expr::If { cond, then, else_, .. } => {
            expr_escaped(cond) || expr_escaped(then) || match else_ {
                Some(b) => expr_escaped(b),
                None => false,
            }
        },
        _ => false,
    }
}

/// Whether any name in the file -- an identifier, a `for` variable, or a
/// formal -- is written with a backslash escape, which would need a
/// binding decoder before it proves a base lookup.
pub fn has_escaped_names(file: &SourceFile) -> (r: bool)
    ensures
        r == escaped_in_stmts(file.stmts@, 0),
{
    stmts_escaped(&file.stmts)
}

} // verus!
