//! Parameter guards in short-circuit conditions: `is.null(p) || p == x`
//! and `length(p) > 0 && p %in% x` test a possibly empty parameter and
//! then feed it, unscalarized, to a vectorized predicate.
use vstd::prelude::*;
use crate::ast::{BinOpKind, Expr, UnaryOpKind};
use crate::checker::Checker;
use crate::matching::name_views;
use crate::scope::{Scope, has_name};
use crate::subscript::{bare_name, bare_spec};
use crate::text::str_eq;

verus! {

/// The parameter `e` names directly, if it is an identifier bound as a
/// parameter of the scope.
pub open spec fn direct_parameter_spec(e: Expr, scope: Scope) -> Option<Seq<char>> {
    match e {
        Expr::Ident { name, .. } => if has_name(scope.parameters@, name@) {
            Some(name@)
        } else {
            None
        },
        _ => None,
    }
}

/// The parameter a call of one of `names` (taken without its namespace
/// qualifier) receives as its first argument.
pub open spec fn call_on_parameter_spec(e: Expr, names: Seq<Seq<char>>, scope: Scope) -> Option<Seq<char>> {
    match e {
        Expr::Call { func, args, .. } => match *func {
            Expr::Ident { name, .. } => if names.contains(bare_spec(name@)) && args@.len() > 0 {
                direct_parameter_spec(args@[0].value, scope)
            } else {
                None
            },
            _ => None,
        },
        _ => None,
    }
}

/// The parameter a length guard tests: `length(p)`, or a comparison with
/// `length(p)` on either side.
pub open spec fn length_guard_spec(e: Expr, scope: Scope) -> Option<Seq<char>> {
    match call_on_parameter_spec(e, seq!["length"@], scope) {
        Some(p) => Some(p),
        None => match e {
            Expr::BinOp { lhs, rhs, .. } => match call_on_parameter_spec(*lhs, seq!["length"@], scope) {
                Some(p) => Some(p),
                None => call_on_parameter_spec(*rhs, seq!["length"@], scope),
            },
            _ => None,
        },
    }
}

/// Whether an operator compares element-wise.
pub open spec fn is_vector_comparison(op: BinOpKind) -> bool {
    op == BinOpKind::Lt || op == BinOpKind::Le || op == BinOpKind::Gt || op == BinOpKind::Ge || op
        == BinOpKind::Eq || op == BinOpKind::Ne || op == BinOpKind::In
}

/// The parameter a vectorized predicate reads: a comparison or `%in%`
/// with the parameter on either side, its negation, or `is.na`, `grepl`
/// or `nzchar` of the parameter.
pub open spec fn vector_predicate_spec(e: Expr, scope: Scope) -> Option<Seq<char>>
    decreases e,
{
    match e {
        Expr::BinOp { op, lhs, rhs, .. } => if is_vector_comparison(op) {
            match direct_parameter_spec(*lhs, scope) {
                Some(p) => Some(p),
                None => direct_parameter_spec(*rhs, scope),
            }
        } else {
            None
        },
        Expr::UnaryOp { op: UnaryOpKind::Not, expr, .. } => vector_predicate_spec(*expr, scope),
        Expr::Call { .. } => call_on_parameter_spec(e, seq!["is.na"@, "grepl"@, "nzchar"@], scope),
        _ => None,
    }
}

/// Whether `lhs op rhs` guards a parameter and then reads the same
/// parameter through a vectorized predicate: `is.null(p) || pred(p)` or
/// `length(p) ... && pred(p)`.
pub open spec fn parameter_vector_guard(op: BinOpKind, lhs: Expr, rhs: Expr, scope: Scope) -> bool {
    let guarded = if op == BinOpKind::OrOr {
        call_on_parameter_spec(lhs, seq!["is.null"@], scope)
    } else if op == BinOpKind::AndAnd {
        length_guard_spec(lhs, scope)
    } else {
        None
    };
    match guarded {
        Some(p) => vector_predicate_spec(rhs, scope) == Some(p),
        None => false,
    }
}

fn direct_parameter<'a>(e: &'a Expr, scope: &Scope) -> (r: Option<&'a str>)
    ensures
        match r {
            Some(p) => direct_parameter_spec(*e, *scope) == Some(p@),
            None => direct_parameter_spec(*e, *scope) is None,
        },
{
    match e {
        Expr::Ident { name, .. } => if scope.is_parameter(name.as_str()) {
            Some(name.as_str())
        } else {
            None
        },
        _ => None,
    }
}

fn listed(names: &Vec<&str>, s: &str) -> (r: bool)
    ensures
        r == name_views(names@).contains(s@),
{
    let mut i: usize = 0;
    while i < names.len()
        invariant
            i <= names@.len(),
            forall|k: int| 0 <= k < i ==> names@[k]@ != s@,
        decreases names.len() - i,
    {
        if str_eq(names[i], s) {
            assert(name_views(names@)[i as int] == s@);
            return true;
        }
        i = i + 1;
    }
    assert forall|k: int| 0 <= k < name_views(names@).len() implies name_views(names@)[k] != s@ by {
        assert(name_views(names@)[k] == names@[k]@);
    }
    false
}

fn call_on_parameter<'a>(e: &'a Expr, names: &Vec<&str>, scope: &Scope) -> (r: Option<&'a str>)
    ensures
        match r {
            Some(p) => call_on_parameter_spec(*e, name_views(names@), *scope) == Some(p@),
            None => call_on_parameter_spec(*e, name_views(names@), *scope) is None,
        },
{
    match e {
        Expr::Call { func, args, .. } => match &**func {
            Expr::Ident { name, .. } => {
                let bare = bare_name(name.as_str());
                if listed(names, bare.as_str()) && args.len() > 0 {
                    direct_parameter(&args[0].value, scope)
                } else {
                    None
                }
            },
            _ => None,
        },
        _ => None,
    }
}

fn names_of_one<'a>(a: &'a str) -> (r: Vec<&'a str>)
    ensures
        name_views(r@) == seq![a@],
{
    let mut v: Vec<&str> = Vec::new();
    v.push(a);
    assert(name_views(v@) =~= seq![a@]);
    v
}

fn length_guard_parameter<'a>(e: &'a Expr, scope: &Scope) -> (r: Option<&'a str>)
    ensures
        match r {
            Some(p) => length_guard_spec(*e, *scope) == Some(p@),
            None => length_guard_spec(*e, *scope) is None,
        },
{
    let names = names_of_one("length");
    if let Some(p) = call_on_parameter(e, &names, scope) {
        return Some(p);
    }
    match e {
        Expr::BinOp { lhs, rhs, .. } => match call_on_parameter(&**lhs, &names, scope) {
            Some(p) => Some(p),
            None => call_on_parameter(&**rhs, &names, scope),
        },
        _ => None,
    }
}

fn vector_predicate_parameter<'a>(e: &'a Expr, scope: &Scope) -> (r: Option<&'a str>)
    ensures
        match r {
            Some(p) => vector_predicate_spec(*e, *scope) == Some(p@),
            None => vector_predicate_spec(*e, *scope) is None,
        },
    decreases e,
{
    match e {
        Expr::BinOp { op, lhs, rhs, .. } => match op {
            BinOpKind::Lt | BinOpKind::Le | BinOpKind::Gt | BinOpKind::Ge | BinOpKind::Eq | BinOpKind::Ne
            | BinOpKind::In => match direct_parameter(&**lhs, scope) {
                Some(p) => Some(p),
                None => direct_parameter(&**rhs, scope),
            },
            _ => None,
        },
        Expr::UnaryOp { op: UnaryOpKind::Not, expr, .. } => vector_predicate_parameter(&**expr, scope),
        Expr::Call { .. } => {
            let mut names: Vec<&str> = Vec::new();
            names.push("is.na");
            names.push("grepl");
            names.push("nzchar");
            assert(name_views(names@) =~= seq!["is.na"@, "grepl"@, "nzchar"@]);
            call_on_parameter(e, &names, scope)
        },
        _ => None,
    }
}

impl Checker {
    /// Whether `lhs op rhs` is a parameter guard followed by a vectorized
    /// predicate on the same parameter (see `parameter_vector_guard`):
    /// R errors at run time when that parameter is a vector.
    pub fn short_circuit_parameter_vector(&self, op: BinOpKind, lhs: &Expr, rhs: &Expr, scope: &Scope) -> (r: bool)
        ensures
            r == parameter_vector_guard(op, *lhs, *rhs, *scope),
    {
        let guarded = match op {
            BinOpKind::OrOr => {
                let names = names_of_one("is.null");
                call_on_parameter(lhs, &names, scope)
            },
            BinOpKind::AndAnd => length_guard_parameter(lhs, scope),
            _ => None,
        };
        match guarded {
            Some(p) => match vector_predicate_parameter(rhs, scope) {
                Some(q) => str_eq(p, q),
                None => false,
            },
            None => false,
        }
    }
}

} // verus!
