//! Expression shapes that the recall rules match by syntax alone: direct
//! calls and their single arguments, numeric literals at most zero, and
//! the names a mistyped `<-` inside a container would have produced.
use vstd::prelude::*;
use crate::ast::{Arg, Expr, UnaryOpKind};
use crate::checker::Checker;
use crate::modes::{mode_name, mode_text};
use crate::scope::{Scope, has_name, lookup, names_contain};
use crate::subscript::{bare_name, bare_spec};
use crate::text::str_eq;
use crate::types::{Length, Mode};

verus! {

/// The spelling of a direct callee: an identifier or a string.
pub open spec fn callee_text(func: Expr) -> Option<Seq<char>> {
    match func {
        Expr::Ident { name, .. } => Some(name@),
        Expr::String(name, _) => Some(name@),
        _ => None,
    }
}

/// The callee of a direct call without its namespace qualifier.
pub open spec fn bare_callee_spec(e: Expr) -> Option<Seq<char>> {
    match e {
        Expr::Call { func, .. } => match callee_text(*func) {
            Some(n) => Some(bare_spec(n)),
            None => None,
        },
        _ => None,
    }
}

/// The callee of a direct call, with any `pkg::` or `pkg:::` prefix
/// removed. Indirect callees have no name.
pub fn bare_callee(expr: &Expr) -> (r: Option<String>)
    ensures
        match r {
            Some(n) => bare_callee_spec(*expr) == Some(n@),
            None => bare_callee_spec(*expr) is None,
        },
{
    let func = match expr {
        Expr::Call { func, .. } => func,
        _ => return None,
    };
    let name = match &**func {
        Expr::Ident { name, .. } => name,
        Expr::String(name, _) => name,
        _ => return None,
    };
    Some(bare_name(name.as_str()))
}

/// Whether a call has exactly one argument, and it is unnamed.
pub open spec fn single_positional(args: Seq<Arg>) -> bool {
    args.len() == 1 && args[0].name is None
}

/// Whether `e` is a call of `callee` with exactly one positional argument.
pub open spec fn unary_call_spec(e: Expr, callee: Seq<char>) -> bool {
    &&& bare_callee_spec(e) == Some(callee)
    &&& e matches Expr::Call { args, .. } && single_positional(args@)
}

/// Whether `expr` calls `callee` (qualified or not) with exactly one
/// positional argument.
pub fn unary_call_to(expr: &Expr, callee: &str) -> (r: bool)
    ensures
        r == unary_call_spec(*expr, callee@),
{
    let args = match expr {
        Expr::Call { args, .. } => args,
        _ => return false,
    };
    let same = match bare_callee(expr) {
        Some(n) => str_eq(n.as_str(), callee),
        None => false,
    };
    same && args.len() == 1 && args[0].name.is_none()
}

/// The callee spelling and the single positional argument of a direct
/// call, or `None` for any other shape.
pub fn unary_call_callee(expr: &Expr) -> (r: Option<(&str, &Expr)>)
    ensures
        match r {
            Some((n, v)) => expr matches Expr::Call { func, args, .. } && callee_text(**func) == Some(n@)
                && single_positional(args@) && *v == args@[0].value,
            None => !(expr matches Expr::Call { func, args, .. } && callee_text(**func) is Some
                && single_positional(args@)),
        },
{
    let (func, args) = match expr {
        Expr::Call { func, args, .. } => (func, args),
        _ => return None,
    };
    let name = match &**func {
        Expr::Ident { name, .. } => name.as_str(),
        Expr::String(name, _) => name.as_str(),
        _ => return None,
    };
    if args.len() != 1 || args[0].name.is_some() {
        return None;
    }
    Some((name, &args[0].value))
}

/// Whether a literal's value, with leading minus signs folded, is at
/// most zero. Source literals are never negative themselves, and a double
/// literal that is neither positive nor zero is not a number.
pub open spec fn nonpositive_literal(e: Expr) -> bool
    decreases e,
{
    match e {
        Expr::Integer(n, _) => n <= 0,
        Expr::Double(d, _) => !d.positive && d.whole == Some(0i64),
        Expr::UnaryOp { op: UnaryOpKind::Neg, expr, .. } => nonnegative_literal(*expr),
        _ => false,
    }
}

/// Whether a literal's value, with leading minus signs folded, is at
/// least zero.
pub open spec fn nonnegative_literal(e: Expr) -> bool
    decreases e,
{
    match e {
        Expr::Integer(n, _) => n >= 0,
        Expr::Double(d, _) => d.positive || d.whole == Some(0i64),
        Expr::UnaryOp { op: UnaryOpKind::Neg, expr, .. } => nonpositive_literal(*expr),
        _ => false,
    }
}

/// Whether a literal, with leading minus signs folded, is at least zero.
fn nonnegative(expr: &Expr) -> (r: bool)
    ensures
        r == nonnegative_literal(*expr),
    decreases expr,
{
    match expr {
        Expr::Integer(n, _) => *n >= 0,
        Expr::Double(d, _) => d.positive || d.whole == Some(0i64),
        Expr::UnaryOp { op: UnaryOpKind::Neg, expr: inner, .. } => zero_or_negative_literal(inner),
        _ => false,
    }
}

/// Whether the operand is a numeric literal at most zero (`0`, `-1`,
/// `-0.5`, ...).
pub fn zero_or_negative_literal(expr: &Expr) -> (r: bool)
    ensures
        r == nonpositive_literal(*expr),
    decreases expr,
{
    match expr {
        Expr::Integer(n, _) => *n <= 0,
        Expr::Double(d, _) => !d.positive && d.whole == Some(0i64),
        Expr::UnaryOp { op: UnaryOpKind::Neg, expr: inner, .. } => nonnegative(inner),
        _ => false,
    }
}

/// The name a `<-` inside a container argument would have produced had
/// `=` been typed: only a bare identifier or a string qualifies.
pub fn mistyped_element_name(target: &Expr) -> (r: Option<&str>)
    ensures
        match r {
            Some(n) => callee_text(*target) == Some(n@),
            None => callee_text(*target) is None,
        },
{
    match target {
        Expr::Ident { name, .. } => Some(name.as_str()),
        Expr::String(name, _) => Some(name.as_str()),
        _ => None,
    }
}

/// The first argument's value of a call.
pub fn call_argument(expr: &Expr) -> (r: Option<&Expr>)
    ensures
        match r {
            Some(v) => expr matches Expr::Call { args, .. } && args@.len() > 0 && *v == args@[0].value,
            None => !(expr matches Expr::Call { args, .. } && args@.len() > 0),
        },
{
    match expr {
        Expr::Call { args, .. } => {
            if args.len() > 0 {
                Some(&args[0].value)
            } else {
                None
            }
        },
        _ => None,
    }
}

/// Whether a mode is an atomic vector mode whose storage length is the
/// value's length.
pub open spec fn scalar_mode(m: Mode) -> bool {
    m == Mode::Logical || m == Mode::Integer || m == Mode::Double || m == Mode::Complex || m
        == Mode::Character
}

/// Why `e` is length 1 by construction, when it is a local binding that is
/// neither a parameter, a parameter default nor a narrowed refinement and
/// whose type is a classless length-1 atomic.
pub open spec fn scalar_local_spec(e: Expr, scope: Scope) -> Option<Seq<char>> {
    match e {
        Expr::Ident { name, .. } => if has_name(scope.parameters@, name@) || has_name(
            scope.default_parameters@,
            name@,
        ) || has_name(scope.narrowed_bindings@, name@) {
            None
        } else {
            match lookup(scope, name@) {
                Some(t) => if t.length == Length::One && scalar_mode(t.mode) && t.class.known
                    && t.class.names@.len() == 0 {
                    Some("`"@ + name@ + "` is a length-1 "@ + mode_text(t.mode))
                } else {
                    None
                },
                None => None,
            }
        },
        _ => None,
    }
}

impl Checker {
    /// The reason a local binding is length 1 by construction, phrased for
    /// a diagnostic, or `None` when its length is not proven that way: a
    /// parameter's type comes from one default or one call site, and a
    /// classed object's length is not its storage length.
    pub fn scalar_by_construction_local(&self, expr: &Expr, scope: &Scope) -> (r: Option<String>)
        ensures
            match r {
                Some(m) => scalar_local_spec(*expr, *scope) == Some(m@),
                None => scalar_local_spec(*expr, *scope) is None,
            },
    {
        let name = match expr {
            Expr::Ident { name, .. } => name,
            _ => return None,
        };
        if names_contain(&scope.parameters, name.as_str()) || names_contain(
            &scope.default_parameters,
            name.as_str(),
        ) || names_contain(&scope.narrowed_bindings, name.as_str()) {
            return None;
        }
        let bound = match scope.get(name.as_str()) {
            Some(t) => t,
            None => return None,
        };
        if bound.length != Length::One {
            return None;
        }
        match bound.mode {
            Mode::Logical | Mode::Integer | Mode::Double | Mode::Complex | Mode::Character => {},
            _ => return None,
        }
        if !bound.class.known || bound.class.names.len() != 0 {
            return None;
        }
        let mut m = String::from_str("`");
        m.append(name.as_str());
        m.append("` is a length-1 ");
        m.append(mode_name(bound.mode));
        Some(m)
    }
}

} // verus!
