//! Evaluation-order analysis of promise forcing: whether a function body
//! is guaranteed to force a parameter before replacing it, and the first
//! place an expression evaluates a given name.
use vstd::prelude::*;
use crate::ast::{Arg, BinOpKind, Expr, IndexKind, Span, Stmt, ident_is, is_ident_named};
use crate::assigned::name_set;
use crate::scope::{add_name, has_name, names_contain};
use crate::subscript::{bare_name, bare_spec, last_qualifier, listed, qualifier_at};
use crate::text::str_eq;

verus! {

/// `a` if it holds a value, else `b`.
pub open spec fn or_else(a: Option<Span>, b: Option<Span>) -> Option<Span> {
    if a is Some {
        a
    } else {
        b
    }
}

/// The calls that capture their arguments unevaluated.
pub open spec fn defusing_calls() -> Seq<Seq<char>> {
    seq![
        "quote"@, "bquote"@, "substitute"@, "expression"@, "alist"@, "enquo"@, "enquos"@,
        "enexpr"@, "enexprs"@, "ensym"@, "ensyms"@, "quo"@, "quos"@, "expr"@, "exprs"@
    ]
}

/// Whether `name` is one of the defusing calls.
pub fn is_defusing_call(name: &str) -> (r: bool)
    ensures
        r == listed(defusing_calls(), name@),
{
    let list: [&str; 15] = [
        "quote", "bquote", "substitute", "expression", "alist", "enquo", "enquos", "enexpr",
        "enexprs", "ensym", "ensyms", "quo", "quos", "expr", "exprs",
    ];
    let mut i: usize = 0;
    while i < 15
        invariant
            i <= 15,
            forall|k: int| 0 <= k < 15 ==> (#[trigger] list@[k])@ == defusing_calls()[k],
            forall|k: int| 0 <= k < i ==> defusing_calls()[k] != name@,
        decreases 15 - i,
    {
        if str_eq(name, list[i]) {
            assert(defusing_calls()[i as int] == name@);
            return true;
        }
        i = i + 1;
    }
    proof {
        if listed(defusing_calls(), name@) {
            let k = choose|k: int| 0 <= k < defusing_calls().len() && #[trigger] defusing_calls()[k] == name@;
            assert(defusing_calls()[k] != name@);
        }
    }
    false
}

/// The start of the run of `:` characters that ends at position `i`.
pub open spec fn colon_run_start(s: Seq<char>, i: int) -> int
    decreases i,
{
    if i > 0 && i <= s.len() && s[i - 1] == ':' {
        colon_run_start(s, i - 1)
    } else {
        i
    }
}

/// The package of a `pkg::name` or `pkg:::name` qualified name.
pub open spec fn package_spec(s: Seq<char>) -> Option<Seq<char>> {
    match last_qualifier(s) {
        Some(i) => Some(s.subrange(0, colon_run_start(s, i))),
        None => None,
    }
}

/// Whether `s` is qualified by `base` or `rlang`.
pub open spec fn base_or_rlang(s: Seq<char>) -> bool {
    package_spec(s) == Some("base"@) || package_spec(s) == Some("rlang"@)
}

/// The position of the last `::` in `name`.
fn last_qualifier_index(name: &str) -> (r: Option<usize>)
    ensures
        match r {
            Some(i) => last_qualifier(name@) == Some(i as int) && qualifier_at(name@, i as int),
            None => last_qualifier(name@) is None,
        },
{
    let n = name.unicode_len();
    let mut i: usize = n;
    while i >= 2
        invariant
            i <= n,
            n == name@.len(),
            forall|j: int| i - 1 <= j ==> !#[trigger] qualifier_at(name@, j),
        decreases i,
    {
        if name.get_char(i - 2) == ':' && name.get_char(i - 1) == ':' {
            let ghost k = (i - 2) as int;
            proof {
                assert(qualifier_at(name@, k));
                let w = choose|w: int|
                    #[trigger] qualifier_at(name@, w) && forall|j: int| w < j ==> !#[trigger] qualifier_at(name@, j);
                if w < k {
                    assert(!qualifier_at(name@, k));
                }
                if w > k {
                    assert(!qualifier_at(name@, w));
                }
            }
            return Some(i - 2);
        }
        proof {
            if i >= 2 {
                assert(!qualifier_at(name@, i - 2));
            }
        }
        i = i - 1;
    }
    proof {
        if exists|w: int| #[trigger] qualifier_at(name@, w) {
            let w = choose|w: int| #[trigger] qualifier_at(name@, w);
            assert(!qualifier_at(name@, w));
        }
    }
    None
}

/// The package of a qualified name: the text before its last `::`, with
/// the colons of a `:::` dropped.
pub fn qualifier_package(name: &str) -> (r: Option<String>)
    ensures
        match r {
            Some(p) => package_spec(name@) == Some(p@),
            None => package_spec(name@) is None,
        },
{
    match last_qualifier_index(name) {
        None => None,
        Some(i) => {
            let mut j: usize = i;
            while j > 0 && name.get_char(j - 1) == ':'
                invariant
                    j <= i,
                    i + 1 < name@.len(),
                    colon_run_start(name@, j as int) == colon_run_start(name@, i as int),
                decreases j,
            {
                j = j - 1;
            }
            Some(name.substring_char(0, j).to_string())
        },
    }
}

/// Whether `name` is qualified by `base` or `rlang`.
fn qualified_by_base_or_rlang(name: &str) -> (r: bool)
    ensures
        r == base_or_rlang(name@),
{
    match qualifier_package(name) {
        None => false,
        Some(package) => str_eq(package.as_str(), "base") || str_eq(package.as_str(), "rlang"),
    }
}

/// The strict builtins whose arguments are forced when they are called
/// under an explicit `base::` or `rlang::` qualifier.
pub open spec fn strict_builtins() -> Seq<Seq<char>> {
    seq!["abort"@, "stop"@, "warning"@, "message"@]
}

/// A callee whose arguments are not evaluated: `missing`, a defusing call
/// qualified by `base` or `rlang`, or one of the trusted defusers.
pub open spec fn defusing_callee(n: Seq<char>, trusted: Seq<String>) -> bool {
    ||| n == "missing"@
    ||| (base_or_rlang(n) && listed(defusing_calls(), bare_spec(n)))
    ||| has_name(trusted, n)
}

/// A qualified strict builtin, whose arguments are forced.
pub open spec fn strict_callee(n: Seq<char>) -> bool {
    base_or_rlang(n) && listed(strict_builtins(), bare_spec(n))
}

/// Whether a statement returns explicitly.
pub open spec fn explicit_return(s: Stmt) -> bool {
    ||| s is Return
    ||| (s matches Stmt::Expr(e) && (e matches Expr::Call { func, .. } && is_ident_named(*func, "return"@)))
}

/// Whether statements `ss[i..]` are guaranteed to force `w` before it is
/// replaced: a direct assignment of `w` decides by its value; a statement
/// that definitely forces `w` decides; an `if` or an explicit return ends
/// the guarantee.
pub open spec fn forces_before_replacement(ss: Seq<Stmt>, i: int, w: Seq<char>, t: Seq<String>) -> bool
    decreases ss, ss.len() - i,
{
    if i < 0 || i >= ss.len() {
        false
    } else {
        let rest = if definite_stmt(ss[i], w, t) is Some {
            true
        } else if ss[i] is If || explicit_return(ss[i]) {
            false
        } else {
            forces_before_replacement(ss, i + 1, w, t)
        };
        match ss[i] {
            Stmt::Assign { target, value, .. } => match target {
                Expr::Ident { name, .. } => if name@ == w {
                    definite_expr(value, w, t) is Some
                } else {
                    rest
                },
                _ => rest,
            },
            _ => rest,
        }
    }
}

/// The force of `w` that is guaranteed when a statement runs: conditions
/// and a `for` iterator run, branch and loop bodies may not; an `if` with
/// a literal condition runs the taken branch.
pub open spec fn definite_stmt(s: Stmt, w: Seq<char>, t: Seq<String>) -> Option<Span>
    decreases s, 2int,
{
    match s {
        Stmt::Assign { value, .. } => definite_expr(value, w, t),
        Stmt::Expr(value) => definite_expr(value, w, t),
        Stmt::If { cond, then, else_, .. } => match cond {
            Expr::Logical(true, sp) => if forces_before_replacement(then@, 0, w, t) {
                Some(sp)
            } else {
                None
            },
            Expr::Logical(false, sp) => match else_ {
                Some(b) => if forces_before_replacement(b@, 0, w, t) {
                    Some(sp)
                } else {
                    None
                },
                None => None,
            },
            _ => definite_expr(cond, w, t),
        },
        Stmt::While { cond, .. } => definite_expr(cond, w, t),
        Stmt::For { iter, .. } => definite_expr(iter, w, t),
        Stmt::Return { value, .. } => match value {
            Some(v) => definite_expr(v, w, t),
            None => None,
        },
        Stmt::FunctionDef { .. } => None,
    }
}

/// The force of `w` that is guaranteed when an expression is evaluated.
pub open spec fn definite_expr(e: Expr, w: Seq<char>, t: Seq<String>) -> Option<Span>
    decreases e, 1int,
{
    match e {
        Expr::If { cond, then, else_, .. } => match *cond {
            Expr::Logical(true, _) => definite_expr(*then, w, t),
            Expr::Logical(false, _) => match else_ {
                Some(b) => definite_expr(*b, w, t),
                None => None,
            },
            _ => definite_expr(*cond, w, t),
        },
        Expr::BinOp { lhs, op, .. } => if op == BinOpKind::AndAnd || op == BinOpKind::OrOr {
            definite_expr(*lhs, w, t)
        } else {
            first_exec(e, w, t)
        },
        Expr::Block { body, span } => if forces_before_replacement(body@, 0, w, t) {
            Some(span)
        } else {
            None
        },
        _ => first_exec(e, w, t),
    }
}

/// The first evaluation of `w` in statements `ss[i..]`.
pub open spec fn first_stmts(ss: Seq<Stmt>, i: int, w: Seq<char>, t: Seq<String>) -> Option<Span>
    decreases ss, ss.len() - i,
{
    if i < 0 || i >= ss.len() {
        None
    } else {
        or_else(first_exec_stmt(ss[i], w, t), first_stmts(ss, i + 1, w, t))
    }
}

/// The first evaluation of `w` in argument values `args[i..]`.
pub open spec fn first_args(args: Seq<Arg>, i: int, w: Seq<char>, t: Seq<String>) -> Option<Span>
    decreases args, args.len() - i,
{
    if i < 0 || i >= args.len() {
        None
    } else {
        or_else(first_exec(args[i].value, w, t), first_args(args, i + 1, w, t))
    }
}

/// The first evaluation of `w` when a statement runs, in evaluation order;
/// a function definition evaluates nothing.
pub open spec fn first_exec_stmt(s: Stmt, w: Seq<char>, t: Seq<String>) -> Option<Span>
    decreases s, 0int,
{
    match s {
        Stmt::Assign { value, .. } => first_exec(value, w, t),
        Stmt::Expr(e) => first_exec(e, w, t),
        Stmt::If { cond, then, else_, .. } => or_else(
            or_else(first_exec(cond, w, t), first_stmts(then@, 0, w, t)),
            match else_ {
                Some(b) => first_stmts(b@, 0, w, t),
                None => None,
            },
        ),
        Stmt::For { iter, body, .. } => or_else(first_exec(iter, w, t), first_stmts(body@, 0, w, t)),
        Stmt::While { cond, body, .. } => or_else(first_exec(cond, w, t), first_stmts(body@, 0, w, t)),
        Stmt::Return { value, .. } => match value {
            Some(v) => first_exec(v, w, t),
            None => None,
        },
        Stmt::FunctionDef { .. } => None,
    }
}

/// The first evaluation of `w` in an expression, in evaluation order. Call
/// arguments count only under a qualified strict builtin; a defusing
/// callee evaluates nothing but itself; an assignment evaluates its value;
/// the name of a `$` access is not evaluated; a function literal
/// evaluates nothing.
pub open spec fn first_exec(e: Expr, w: Seq<char>, t: Seq<String>) -> Option<Span>
    decreases e, 0int,
{
    match e {
        Expr::Ident { name, span } => if name@ == w {
            Some(span)
        } else {
            None
        },
        Expr::Call { func, args, .. } => match *func {
            Expr::Ident { name, .. } => if defusing_callee(name@, t) {
                first_exec(*func, w, t)
            } else if strict_callee(name@) {
                or_else(first_exec(*func, w, t), first_args(args@, 0, w, t))
            } else {
                first_exec(*func, w, t)
            },
            _ => first_exec(*func, w, t),
        },
        Expr::BinOp { lhs, rhs, op, .. } => if op == BinOpKind::Assign || op
            == BinOpKind::SuperAssign {
            first_exec(*rhs, w, t)
        } else {
            or_else(first_exec(*lhs, w, t), first_exec(*rhs, w, t))
        },
        Expr::UnaryOp { expr, .. } => first_exec(*expr, w, t),
        Expr::Index { base, kind, args, .. } => or_else(
            first_exec(*base, w, t),
            if kind != IndexKind::Dollar {
                first_args(args@, 0, w, t)
            } else {
                None
            },
        ),
        Expr::Block { body, .. } => first_stmts(body@, 0, w, t),
        Expr::If { cond, then, else_, .. } => or_else(
            or_else(first_exec(*cond, w, t), first_exec(*then, w, t)),
            match else_ {
                Some(b) => first_exec(*b, w, t),
                None => None,
            },
        ),
        _ => None,
    }
}

/// Whether `s` returns explicitly.
fn is_explicit_return(s: &Stmt) -> (r: bool)
    ensures
        r == explicit_return(*s),
{
    match s {
        Stmt::Return { .. } => true,
        Stmt::Expr(e) => match e {
            Expr::Call { func, .. } => ident_is(func, "return"),
            _ => false,
        },
        _ => false,
    }
}

/// Whether `body` is guaranteed to force `wanted` before replacing it.
pub fn guaranteed_force_before_replacement(body: &Vec<Stmt>, wanted: &str, trusted_defusers: &Vec<String>) -> (r: bool)
    ensures
        r == forces_before_replacement(body@, 0, wanted@, trusted_defusers@),
    decreases body, 3int,
{
    let mut i: usize = 0;
    while i < body.len()
        invariant
            i <= body@.len(),
            forces_before_replacement(body@, 0, wanted@, trusted_defusers@)
                == forces_before_replacement(body@, i as int, wanted@, trusted_defusers@),
        decreases body.len() - i,
    {
        proof {
            assert(decreases_to!(body => body@));
            assert(decreases_to!(body@ => body@[i as int]));
        }
        let statement = &body[i];
        if let Stmt::Assign { target, value, .. } = statement {
            if let Expr::Ident { name, .. } = target {
                if str_eq(name.as_str(), wanted) {
                    return definitely_forced_identifier(value, wanted, trusted_defusers).is_some();
                }
            }
        }
        if definitely_forced_identifier_in_stmt(statement, wanted, trusted_defusers).is_some() {
            return true;
        }
        if let Stmt::If { .. } = statement {
            return false;
        }
        if is_explicit_return(statement) {
            return false;
        }
        i = i + 1;
    }
    false
}

/// A force of `wanted` that is guaranteed when `statement` runs.
pub fn definitely_forced_identifier_in_stmt(statement: &Stmt, wanted: &str, trusted_defusers: &Vec<String>) -> (r: Option<Span>)
    ensures
        r == definite_stmt(*statement, wanted@, trusted_defusers@),
    decreases statement, 2int,
{
    match statement {
        Stmt::Assign { value, .. } => definitely_forced_identifier(value, wanted, trusted_defusers),
        Stmt::Expr(value) => definitely_forced_identifier(value, wanted, trusted_defusers),
        Stmt::If { cond, then, else_, .. } => match cond {
            Expr::Logical(true, span) => {
                if guaranteed_force_before_replacement(then, wanted, trusted_defusers) {
                    Some(*span)
                } else {
                    None
                }
            },
            Expr::Logical(false, span) => match else_ {
                Some(b) => {
                    if guaranteed_force_before_replacement(b, wanted, trusted_defusers) {
                        Some(*span)
                    } else {
                        None
                    }
                },
                None => None,
            },
            _ => definitely_forced_identifier(cond, wanted, trusted_defusers),
        },
        Stmt::While { cond, .. } => definitely_forced_identifier(cond, wanted, trusted_defusers),
        Stmt::For { iter, .. } => definitely_forced_identifier(iter, wanted, trusted_defusers),
        Stmt::Return { value, .. } => match value {
            Some(v) => definitely_forced_identifier(v, wanted, trusted_defusers),
            None => None,
        },
        Stmt::FunctionDef { .. } => None,
    }
}

/// A force of `wanted` that is guaranteed when `expr` is evaluated.
pub fn definitely_forced_identifier(expr: &Expr, wanted: &str, trusted_defusers: &Vec<String>) -> (r: Option<Span>)
    ensures
        r == definite_expr(*expr, wanted@, trusted_defusers@),
    decreases expr, 1int,
{
    match expr {
        Expr::If { cond, then, else_, .. } => match &**cond {
            Expr::Logical(true, _) => definitely_forced_identifier(then, wanted, trusted_defusers),
            Expr::Logical(false, _) => match else_ {
                Some(b) => definitely_forced_identifier(b, wanted, trusted_defusers),
                None => None,
            },
            _ => definitely_forced_identifier(cond, wanted, trusted_defusers),
        },
        Expr::BinOp { lhs, op, .. } => {
            if *op == BinOpKind::AndAnd || *op == BinOpKind::OrOr {
                definitely_forced_identifier(lhs, wanted, trusted_defusers)
            } else {
                first_executed_identifier(expr, wanted, trusted_defusers)
            }
        },
        Expr::Block { body, span } => {
            if guaranteed_force_before_replacement(body, wanted, trusted_defusers) {
                Some(*span)
            } else {
                None
            }
        },
        _ => first_executed_identifier(expr, wanted, trusted_defusers),
    }
}

fn first_in_stmts(ss: &Vec<Stmt>, wanted: &str, trusted_defusers: &Vec<String>) -> (r: Option<Span>)
    ensures
        r == first_stmts(ss@, 0, wanted@, trusted_defusers@),
    decreases ss, 0int,
{
    let mut i: usize = 0;
    while i < ss.len()
        invariant
            i <= ss@.len(),
            first_stmts(ss@, 0, wanted@, trusted_defusers@) == first_stmts(ss@, i as int, wanted@, trusted_defusers@),
        decreases ss.len() - i,
    {
        proof {
            assert(decreases_to!(ss => ss@));
            assert(decreases_to!(ss@ => ss@[i as int]));
        }
        let found = first_executed_identifier_in_stmt(&ss[i], wanted, trusted_defusers);
        if found.is_some() {
            return found;
        }
        i = i + 1;
    }
    None
}

fn first_in_args(args: &Vec<Arg>, wanted: &str, trusted_defusers: &Vec<String>) -> (r: Option<Span>)
    ensures
        r == first_args(args@, 0, wanted@, trusted_defusers@),
    decreases args, 0int,
{
    let mut i: usize = 0;
    while i < args.len()
        invariant
            i <= args@.len(),
            first_args(args@, 0, wanted@, trusted_defusers@) == first_args(args@, i as int, wanted@, trusted_defusers@),
        decreases args.len() - i,
    {
        proof {
            assert(decreases_to!(args => args@));
            assert(decreases_to!(args@ => args@[i as int]));
            assert(decreases_to!(args@[i as int] => args@[i as int].value));
        }
        let found = first_executed_identifier(&args[i].value, wanted, trusted_defusers);
        if found.is_some() {
            return found;
        }
        i = i + 1;
    }
    None
}

/// The first evaluation of `wanted` when `statement` runs.
pub fn first_executed_identifier_in_stmt(statement: &Stmt, wanted: &str, trusted_defusers: &Vec<String>) -> (r: Option<Span>)
    ensures
        r == first_exec_stmt(*statement, wanted@, trusted_defusers@),
    decreases statement, 0int,
{
    match statement {
        Stmt::Assign { value, .. } => first_executed_identifier(value, wanted, trusted_defusers),
        Stmt::Expr(e) => first_executed_identifier(e, wanted, trusted_defusers),
        Stmt::If { cond, then, else_, .. } => {
            let a = first_executed_identifier(cond, wanted, trusted_defusers);
            if a.is_some() {
                return a;
            }
            let b = first_in_stmts(then, wanted, trusted_defusers);
            if b.is_some() {
                return b;
            }
            match else_ {
                Some(e) => first_in_stmts(e, wanted, trusted_defusers),
                None => None,
            }
        },
        Stmt::For { iter, body, .. } => {
            let a = first_executed_identifier(iter, wanted, trusted_defusers);
            if a.is_some() {
                return a;
            }
            first_in_stmts(body, wanted, trusted_defusers)
        },
        Stmt::While { cond, body, .. } => {
            let a = first_executed_identifier(cond, wanted, trusted_defusers);
            if a.is_some() {
                return a;
            }
            first_in_stmts(body, wanted, trusted_defusers)
        },
        Stmt::Return { value, .. } => match value {
            Some(v) => first_executed_identifier(v, wanted, trusted_defusers),
            None => None,
        },
        Stmt::FunctionDef { .. } => None,
    }
}

/// Whether `name` is a callee that does not evaluate its arguments.
fn is_defusing_callee(name: &str, trusted_defusers: &Vec<String>) -> (r: bool)
    ensures
        r == defusing_callee(name@, trusted_defusers@),
{
    if str_eq(name, "missing") {
        return true;
    }
    if qualified_by_base_or_rlang(name) {
        let bare = bare_name(name);
        if is_defusing_call(bare.as_str()) {
            return true;
        }
    }
    names_contain(trusted_defusers, name)
}

/// Whether `name` is a qualified strict builtin.
fn is_strict_callee(name: &str) -> (r: bool)
    ensures
        r == strict_callee(name@),
{
    if !qualified_by_base_or_rlang(name) {
        return false;
    }
    let bare = bare_name(name);
    let b = bare.as_str();
    let r = str_eq(b, "abort") || str_eq(b, "stop") || str_eq(b, "warning") || str_eq(b, "message");
    proof {
        if listed(strict_builtins(), bare@) {
            let k = choose|k: int| 0 <= k < strict_builtins().len() && #[trigger] strict_builtins()[k] == bare@;
            assert(k == 0 || k == 1 || k == 2 || k == 3);
        }
        if r {
            if bare@ == "abort"@ {
                assert(strict_builtins()[0] == bare@);
            } else if bare@ == "stop"@ {
                assert(strict_builtins()[1] == bare@);
            } else if bare@ == "warning"@ {
                assert(strict_builtins()[2] == bare@);
            } else {
                assert(strict_builtins()[3] == bare@);
            }
        }
    }
    r
}

/// The first evaluation of `wanted` in `expr`, in evaluation order.
pub fn first_executed_identifier(expr: &Expr, wanted: &str, trusted_defusers: &Vec<String>) -> (r: Option<Span>)
    ensures
        r == first_exec(*expr, wanted@, trusted_defusers@),
    decreases expr, 0int,
{
    match expr {
        Expr::Ident { name, span } => {
            if str_eq(name.as_str(), wanted) {
                Some(*span)
            } else {
                None
            }
        },
        Expr::Call { func, args, .. } => match &**func {
            Expr::Ident { name, .. } => {
                if is_defusing_callee(name.as_str(), trusted_defusers) {
                    first_executed_identifier(func, wanted, trusted_defusers)
                } else if is_strict_callee(name.as_str()) {
                    let a = first_executed_identifier(func, wanted, trusted_defusers);
                    if a.is_some() {
                        return a;
                    }
                    first_in_args(args, wanted, trusted_defusers)
                } else {
                    first_executed_identifier(func, wanted, trusted_defusers)
                }
            },
            _ => first_executed_identifier(func, wanted, trusted_defusers),
        },
        Expr::BinOp { lhs, rhs, op, .. } => {
            if *op == BinOpKind::Assign || *op == BinOpKind::SuperAssign {
                first_executed_identifier(rhs, wanted, trusted_defusers)
            } else {
                let a = first_executed_identifier(lhs, wanted, trusted_defusers);
                if a.is_some() {
                    return a;
                }
                first_executed_identifier(rhs, wanted, trusted_defusers)
            }
        },
        Expr::UnaryOp { expr: inner, .. } => first_executed_identifier(inner, wanted, trusted_defusers),
        Expr::Index { base, kind, args, .. } => {
            let a = first_executed_identifier(base, wanted, trusted_defusers);
            if a.is_some() {
                return a;
            }
            if *kind != IndexKind::Dollar {
                first_in_args(args, wanted, trusted_defusers)
            } else {
                None
            }
        },
        Expr::Block { body, .. } => first_in_stmts(body, wanted, trusted_defusers),
        Expr::If { cond, then, else_, .. } => {
            let a = first_executed_identifier(cond, wanted, trusted_defusers);
            if a.is_some() {
                return a;
            }
            let b = first_executed_identifier(then, wanted, trusted_defusers);
            if b.is_some() {
                return b;
            }
            match else_ {
                Some(e) => first_executed_identifier(e, wanted, trusted_defusers),
                None => None,
            }
        },
        _ => None,
    }
}


/// The identifiers an expression evaluates when forced: not assignment
/// targets, not the name of a `$` access, not inside function literals.
pub open spec fn executed_expr(e: Expr) -> Set<Seq<char>>
    decreases e, 0int,
{
    match e {
        Expr::Ident { name, .. } => set![name@],
        Expr::Call { func, args, .. } => executed_expr(*func).union(executed_args(args@)),
        Expr::BinOp { op, lhs, rhs, .. } => if op == BinOpKind::Assign || op
            == BinOpKind::SuperAssign {
            executed_expr(*rhs)
        } else {
            executed_expr(*lhs).union(executed_expr(*rhs))
        },
        Expr::UnaryOp { expr, .. } => executed_expr(*expr),
        Expr::Index { base, kind, args, .. } => executed_expr(*base).union(
            if kind != IndexKind::Dollar {
                executed_args(args@)
            } else {
                Set::empty()
            },
        ),
        Expr::Block { body, .. } => executed_stmts(body@),
        Expr::If { cond, then, else_, .. } => executed_expr(*cond).union(executed_expr(*then)).union(
            match else_ {
                Some(b) => executed_expr(*b),
                None => Set::empty(),
            },
        ),
        _ => Set::empty(),
    }
}

/// The executed identifiers of argument values.
pub open spec fn executed_args(args: Seq<Arg>) -> Set<Seq<char>>
    decreases args, 0int,
{
    if args.len() == 0 {
        Set::empty()
    } else {
        executed_args(args.subrange(0, args.len() - 1)).union(executed_expr(args[args.len() - 1].value))
    }
}

/// The executed identifiers of statements.
pub open spec fn executed_stmts(ss: Seq<Stmt>) -> Set<Seq<char>>
    decreases ss, 0int,
{
    if ss.len() == 0 {
        Set::empty()
    } else {
        executed_stmts(ss.subrange(0, ss.len() - 1)).union(executed_stmt(ss[ss.len() - 1]))
    }
}

/// The executed identifiers of one statement.
pub open spec fn executed_stmt(s: Stmt) -> Set<Seq<char>>
    decreases s, 0int,
{
    match s {
        Stmt::Assign { value, .. } => executed_expr(value),
        Stmt::Expr(e) => executed_expr(e),
        Stmt::If { cond, then, else_, .. } => executed_expr(cond).union(executed_stmts(then@)).union(
            match else_ {
                Some(b) => executed_stmts(b@),
                None => Set::empty(),
            },
        ),
        Stmt::For { iter, body, .. } => executed_expr(iter).union(executed_stmts(body@)),
        Stmt::While { cond, body, .. } => executed_expr(cond).union(executed_stmts(body@)),
        Stmt::FunctionDef { .. } => Set::empty(),
        Stmt::Return { value, .. } => match value {
            Some(v) => executed_expr(v),
            None => Set::empty(),
        },
    }
}

fn collect_executed_args(args: &Vec<Arg>, names: &mut Vec<String>)
    ensures
        name_set(final(names)@) == name_set(old(names)@).union(executed_args(args@)),
    decreases args, 0int,
{
    let ghost start = names@;
    let mut i: usize = 0;
    assert(args@.take(0) =~= Seq::<Arg>::empty());
    assert(name_set(names@) =~= name_set(start).union(executed_args(args@.take(0))));
    while i < args.len()
        invariant
            i <= args@.len(),
            name_set(names@) == name_set(start).union(executed_args(args@.take(i as int))),
        decreases args.len() - i,
    {
        proof {
            assert(decreases_to!(args => args@));
            assert(decreases_to!(args@ => args@[i as int]));
            assert(decreases_to!(args@[i as int] => args@[i as int].value));
        }
        collect_executed_identifiers(&args[i].value, names);
        proof {
            let t = args@.take(i + 1);
            assert(t.subrange(0, t.len() - 1) =~= args@.take(i as int));
            assert(t[t.len() - 1] == args@[i as int]);
            assert(name_set(names@) =~= name_set(start).union(executed_args(t)));
        }
        i = i + 1;
    }
    assert(args@.take(args@.len() as int) =~= args@);
}

fn collect_executed_stmts(ss: &Vec<Stmt>, names: &mut Vec<String>)
    ensures
        name_set(final(names)@) == name_set(old(names)@).union(executed_stmts(ss@)),
    decreases ss, 0int,
{
    let ghost start = names@;
    let mut i: usize = 0;
    assert(ss@.take(0) =~= Seq::<Stmt>::empty());
    assert(name_set(names@) =~= name_set(start).union(executed_stmts(ss@.take(0))));
    while i < ss.len()
        invariant
            i <= ss@.len(),
            name_set(names@) == name_set(start).union(executed_stmts(ss@.take(i as int))),
        decreases ss.len() - i,
    {
        proof {
            assert(decreases_to!(ss => ss@));
            assert(decreases_to!(ss@ => ss@[i as int]));
        }
        let ghost mid = names@;
        collect_executed_stmt(&ss[i], names);
        proof {
            let t = ss@.take(i + 1);
            assert(t.subrange(0, t.len() - 1) =~= ss@.take(i as int));
            assert(t[t.len() - 1] == ss@[i as int]);
            assert(name_set(names@) =~= name_set(start).union(executed_stmts(t)));
        }
        i = i + 1;
    }
    assert(ss@.take(ss@.len() as int) =~= ss@);
}

fn collect_executed_stmt(s: &Stmt, names: &mut Vec<String>)
    ensures
        name_set(final(names)@) == name_set(old(names)@).union(executed_stmt(*s)),
    decreases s, 0int,
{
    let ghost before = names@;
    match s {
        Stmt::Assign { value, .. } => collect_executed_identifiers(value, names),
        Stmt::Expr(e) => collect_executed_identifiers(e, names),
        Stmt::If { cond, then, else_, .. } => {
            collect_executed_identifiers(cond, names);
            collect_executed_stmts(then, names);
            if let Some(b) = else_ {
                collect_executed_stmts(b, names);
            }
        },
        Stmt::For { iter, body, .. } => {
            collect_executed_identifiers(iter, names);
            collect_executed_stmts(body, names);
        },
        Stmt::While { cond, body, .. } => {
            collect_executed_identifiers(cond, names);
            collect_executed_stmts(body, names);
        },
        Stmt::FunctionDef { .. } => {},
        Stmt::Return { value, .. } => {
            if let Some(v) = value {
                collect_executed_identifiers(v, names);
            }
        },
    }
    assert(name_set(names@) =~= name_set(before).union(executed_stmt(*s)));
}

/// Record the identifiers `expr` evaluates when forced (see
/// `executed_expr`).
pub fn collect_executed_identifiers(expr: &Expr, names: &mut Vec<String>)
    ensures
        name_set(final(names)@) == name_set(old(names)@).union(executed_expr(*expr)),
    decreases expr, 0int,
{
    let ghost before = names@;
    match expr {
        Expr::Ident { name, .. } => add_name(names, name.as_str()),
        Expr::Call { func, args, .. } => {
            collect_executed_identifiers(func, names);
            collect_executed_args(args, names);
        },
        Expr::BinOp { op, lhs, rhs, .. } => {
            if *op == BinOpKind::Assign || *op == BinOpKind::SuperAssign {
                collect_executed_identifiers(rhs, names);
            } else {
                collect_executed_identifiers(lhs, names);
                collect_executed_identifiers(rhs, names);
            }
        },
        Expr::UnaryOp { expr: inner, .. } => collect_executed_identifiers(inner, names),
        Expr::Index { base, kind, args, .. } => {
            collect_executed_identifiers(base, names);
            if *kind != IndexKind::Dollar {
                collect_executed_args(args, names);
            }
        },
        Expr::Block { body, .. } => collect_executed_stmts(body, names),
        Expr::If { cond, then, else_, .. } => {
            collect_executed_identifiers(cond, names);
            collect_executed_identifiers(then, names);
            if let Some(b) = else_ {
                collect_executed_identifiers(b, names);
            }
        },
        _ => {},
    }
    assert(name_set(names@) =~= name_set(before).union(executed_expr(*expr)));
}
} // verus!
