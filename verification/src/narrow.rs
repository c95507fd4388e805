//! Type facts established by guards and assertions.
use vstd::prelude::*;
use crate::ast::{Arg, BinOpKind, Expr, UnaryOpKind};
use crate::text::{starts_with, str_eq};
use crate::types::{
    ClassVector, Length, Mode, RType, copy_type, has_known_class_spec, is_plain_type, is_unknown_type,
    ty_eq, union_of,
};
use crate::modes::{spec_modes, types_intersect};
use crate::scope::{Scope, copy_scope, has_name, lookup, narrowed_update, scope_eq};

verus! {

/// A type refinement extracted from an `if` condition.
///
/// `Positive` means "in the `then` branch, `var` satisfies the predicate".
/// `Negative` is its negated counterpart: the `else` branch satisfies the
/// predicate, while the `then` branch may be narrowed away from it when that
/// complement is representable.
#[derive(Debug)]
pub enum Narrowing {
    /// No refinement could be extracted from the condition.
    Unrefined,
    /// `var` is narrowed to `target` in the positive (then) branch.
    Positive { var: String, target: RType },
    /// `var` satisfies `target` in the `else` branch of `!predicate(var)`.
    Negative { var: String, target: RType },
    /// An `||` guard whose false path proves a predicate; either operand may
    /// have made the condition true, so the then branch learns nothing.
    Else { var: String, target: RType },
    /// A zero-length guard (`!length(x)` or `length(x) == 0`) whose false
    /// path proves only that `x` is non-NULL.
    NonNullElse { var: String },
    /// A rejecting `||` chain containing `length(x) != 1`: its false path
    /// proves length one, and a negated type predicate over the same
    /// variable may also prove its mode.
    ScalarElse { var: String, target: Option<RType> },
}

/// The type `is.<class>` / `inherits(x, "<class>")` tests for: an opaque
/// value of that class.
pub open spec fn is_class_target(t: RType, class: Seq<char>) -> bool {
    &&& t.mode == Mode::Opaque
    &&& t.length == Length::Unknown
    &&& t.class.known
    &&& t.class.names@.len() == 1
    &&& t.class.names@[0]@ == class
    &&& t.members is None
    &&& t.columns is None
}

/// The union of classless integer and double scalars.
pub open spec fn is_numeric_target(t: RType) -> bool {
    &&& t.mode == Mode::Union
    &&& t.length == Length::One
    &&& t.class.known
    &&& t.class.names@.len() == 0
    &&& t.columns is None
    &&& t.members is Some
    &&& t.members->0@.len() == 2
    &&& is_plain_type(t.members->0@[0], Mode::Integer, Length::One)
    &&& is_plain_type(t.members->0@[1], Mode::Double, Length::One)
}

/// The mode a single-mode base type predicate tests for.
pub open spec fn predicate_mode(name: Seq<char>) -> Option<Mode> {
    if name == "is.double"@ {
        Some(Mode::Double)
    } else if name == "is.integer"@ {
        Some(Mode::Integer)
    } else if name == "is.character"@ {
        Some(Mode::Character)
    } else if name == "is.logical"@ {
        Some(Mode::Logical)
    } else if name == "is.complex"@ {
        Some(Mode::Complex)
    } else if name == "is.list"@ {
        Some(Mode::List)
    } else if name == "is.function"@ {
        Some(Mode::Function)
    } else if name == "is.raw"@ {
        Some(Mode::Raw)
    } else {
        None
    }
}

/// Whether `name` is a base type predicate with a known target.
pub open spec fn is_base_predicate(name: Seq<char>) -> bool {
    name == "is.numeric"@ || predicate_mode(name) is Some || name == "is.data.frame"@ || name
        == "is.environment"@ || name == "is.null"@
}

/// `t` is the type base predicate `name` tests for.
pub open spec fn base_target(name: Seq<char>, t: RType) -> bool {
    if name == "is.numeric"@ {
        is_numeric_target(t)
    } else if predicate_mode(name) is Some {
        is_plain_type(t, predicate_mode(name)->0, Length::One)
    } else if name == "is.data.frame"@ {
        &&& t.mode == Mode::List
        &&& t.length == Length::One
        &&& t.class.known
        &&& t.class.names@.len() == 1
        &&& t.class.names@[0]@ == "data.frame"@
        &&& t.members is None
        &&& t.columns is None
    } else if name == "is.environment"@ {
        is_class_target(t, "environment"@)
    } else if name == "is.null"@ {
        is_plain_type(t, Mode::Null, Length::Zero)
    } else {
        false
    }
}

/// Map a type predicate name to the type it tests for. Group predicates
/// return a union: `is.numeric` matches integer or double.
pub fn predicate_target(name: &str) -> (r: Option<RType>)
    ensures
        is_base_predicate(name@) == r is Some,
        r matches Some(t) ==> base_target(name@, t),
{
    if str_eq(name, "is.numeric") {
        let mut members: Vec<RType> = Vec::new();
        members.push(RType::scalar(Mode::Integer));
        members.push(RType::scalar(Mode::Double));
        let r = RType::union(members);
        assert(union_of(members@, r));
        return Some(r);
    }
    let mode = if str_eq(name, "is.double") {
        Some(Mode::Double)
    } else if str_eq(name, "is.integer") {
        Some(Mode::Integer)
    } else if str_eq(name, "is.character") {
        Some(Mode::Character)
    } else if str_eq(name, "is.logical") {
        Some(Mode::Logical)
    } else if str_eq(name, "is.complex") {
        Some(Mode::Complex)
    } else if str_eq(name, "is.list") {
        Some(Mode::List)
    } else if str_eq(name, "is.function") {
        Some(Mode::Function)
    } else if str_eq(name, "is.raw") {
        Some(Mode::Raw)
    } else {
        None
    };
    match mode {
        Some(m) => return Some(RType::scalar(m)),
        None => {},
    }
    if str_eq(name, "is.data.frame") {
        Some(RType::scalar(Mode::List).with_class(ClassVector::single("data.frame")))
    } else if str_eq(name, "is.environment") {
        Some(RType::unknown().with_class(ClassVector::single("environment")))
    } else if str_eq(name, "is.null") {
        Some(RType::new(Mode::Null, Length::Zero))
    } else {
        None
    }
}

/// The text `is.`.
pub open spec fn is_prefix_text() -> Seq<char> {
    seq!['i', 's', '.']
}

/// The class an `is.<class>` name tests for.
pub open spec fn s3_class(name: Seq<char>) -> Option<Seq<char>> {
    if name.len() > 3 && name.subrange(0, 3) == is_prefix_text() {
        Some(name.subrange(3, name.len() as int))
    } else {
        None
    }
}

/// The class target of an `is.<class>` predicate name.
pub fn s3_predicate_target(name: &str) -> (r: Option<RType>)
    ensures
        s3_class(name@) is None ==> r is None,
        s3_class(name@) matches Some(c) ==> r matches Some(t) && is_class_target(t, c),
{
    let prefix = "is.";
    proof {
        reveal_strlit("is.");
        assert(prefix@ =~= is_prefix_text());
    }
    if !starts_with(name, prefix) {
        return None;
    }
    let n = name.unicode_len();
    if n <= 3 {
        return None;
    }
    let class = name.substring_char(3, n);
    Some(RType::unknown().with_class(ClassVector::single(class)))
}

/// Narrowing targets for `assert_*_scalar` calls.
pub open spec fn assertion_mode(name: Seq<char>) -> Option<Mode> {
    if name == "assert_character_scalar"@ {
        Some(Mode::Character)
    } else if name == "assert_numeric_scalar"@ {
        Some(Mode::Double)
    } else if name == "assert_logical_scalar"@ {
        Some(Mode::Logical)
    } else if name == "assert_integer_scalar"@ {
        Some(Mode::Integer)
    } else if name == "assert_function"@ {
        Some(Mode::Function)
    } else {
        None
    }
}

/// The type an assertion helper narrows its subject to.
pub fn assertion_call_target(name: &str) -> (r: Option<RType>)
    ensures
        assertion_mode(name@) is None ==> r is None,
        assertion_mode(name@) matches Some(m) ==> r matches Some(t) && is_plain_type(
            t,
            m,
            Length::One,
        ),
{
    if str_eq(name, "assert_character_scalar") {
        Some(RType::scalar(Mode::Character))
    } else if str_eq(name, "assert_numeric_scalar") {
        Some(RType::scalar(Mode::Double))
    } else if str_eq(name, "assert_logical_scalar") {
        Some(RType::scalar(Mode::Logical))
    } else if str_eq(name, "assert_integer_scalar") {
        Some(RType::scalar(Mode::Integer))
    } else if str_eq(name, "assert_function") {
        Some(RType::scalar(Mode::Function))
    } else {
        None
    }
}

/// The name of the bare identifier `e`, if it is one.
pub open spec fn ident_of(e: Expr) -> Option<Seq<char>> {
    match e {
        Expr::Ident { name, .. } => Some(name@),
        _ => None,
    }
}

/// The identifier a call's first argument names, if it is a bare identifier.
pub open spec fn first_ident(args: Seq<Arg>) -> Option<Seq<char>> {
    if args.len() > 0 {
        ident_of(args[0].value)
    } else {
        None
    }
}

/// The variable named by a predicate's first argument, if that argument
/// is a bare identifier.
pub fn first_arg_ident(args: &[Arg]) -> (r: Option<String>)
    ensures
        match r {
            Some(n) => first_ident(args@) == Some(n@),
            None => first_ident(args@) is None,
        },
{
    if args.len() == 0 {
        return None;
    }
    match &args[0].value {
        Expr::Ident { name, .. } => Some(name.clone()),
        _ => None,
    }
}

/// The class literal `inherits(x, "<class>")` tests for.
pub open spec fn inherits_class(args: Seq<Arg>) -> Option<Seq<char>> {
    if args.len() > 1 {
        match args[1].value {
            Expr::String(c, _) => if c@.len() > 0 {
                Some(c@)
            } else {
                None
            },
            _ => None,
        }
    } else {
        None
    }
}

/// Whether a predicate call `name(args)` has a type it tests for.
pub open spec fn has_call_target(name: Seq<char>, args: Seq<Arg>) -> bool {
    if name == "inherits"@ {
        inherits_class(args) is Some
    } else {
        is_base_predicate(name) || s3_class(name) is Some
    }
}

/// `t` is the type the predicate call `name(args)` tests for.
pub open spec fn call_target(name: Seq<char>, args: Seq<Arg>, t: RType) -> bool {
    if name == "inherits"@ {
        inherits_class(args) matches Some(c) && is_class_target(t, c)
    } else if is_base_predicate(name) {
        base_target(name, t)
    } else {
        s3_class(name) matches Some(c) && is_class_target(t, c)
    }
}

/// The type a predicate call tests for: `inherits(x, "foo")` reads its
/// class from the second argument; other names map through
/// `predicate_target`, then the `is.<class>` fallback.
pub fn predicate_call_target(name: &str, args: &[Arg]) -> (r: Option<RType>)
    ensures
        has_call_target(name@, args@) == r is Some,
        r matches Some(t) ==> call_target(name@, args@, t),
{
    if str_eq(name, "inherits") {
        if args.len() > 1 {
            match &args[1].value {
                Expr::String(class, _) => {
                    if class.unicode_len() > 0 {
                        return Some(RType::unknown().with_class(ClassVector::single(class.as_str())));
                    }
                },
                _ => {},
            }
        }
        None
    } else {
        match predicate_target(name) {
            Some(t) => Some(t),
            None => s3_predicate_target(name),
        }
    }
}

/// The variable `length(x)` measures, for a bare identifier `x`.
pub open spec fn length_guard_spec(e: Expr) -> Option<Seq<char>> {
    match e {
        Expr::Call { func, args, .. } => if ident_of(*func) == Some("length"@) {
            first_ident(args@)
        } else {
            None
        },
        _ => None,
    }
}

/// The variable measured by a `length(x)` call.
pub fn length_guard_var(expr: &Expr) -> (r: Option<String>)
    ensures
        match r {
            Some(n) => length_guard_spec(*expr) == Some(n@),
            None => length_guard_spec(*expr) is None,
        },
{
    match expr {
        Expr::Call { func, args, .. } => match &**func {
            Expr::Ident { name, .. } => {
                if str_eq(name.as_str(), "length") {
                    first_arg_ident(args.as_slice())
                } else {
                    None
                }
            },
            _ => None,
        },
        _ => None,
    }
}

/// Whether `e` is the whole-number literal `value`.
pub open spec fn literal_eq_spec(e: Expr, value: i64) -> bool {
    match e {
        Expr::Integer(n, _) => n == value,
        Expr::Double(d, _) => d.whole == Some(value),
        _ => false,
    }
}

/// Whether `expr` is the whole-number literal `value` (`0`, `1`, `1.0`).
pub fn is_literal_eq(expr: &Expr, value: i64) -> (r: bool)
    ensures
        r == literal_eq_spec(*expr, value),
{
    match expr {
        Expr::Integer(n, _) => *n == value,
        Expr::Double(d, _) => d.whole == Some(value),
        _ => false,
    }
}

/// The variable inspected by a simple predicate call (`is.na` included, to
/// recognize compound guards such as `is.null(x) || is.na(x)`).
pub open spec fn predicate_var_spec(e: Expr) -> Option<Seq<char>> {
    match e {
        Expr::Call { func, args, .. } => match ident_of(*func) {
            Some(name) => if name != "is.na"@ && !is_base_predicate(name) && name != "inherits"@ {
                None
            } else {
                first_ident(args@)
            },
            None => None,
        },
        _ => None,
    }
}

/// The variable a simple predicate call inspects.
pub fn predicate_var(expr: &Expr) -> (r: Option<String>)
    ensures
        match r {
            Some(n) => predicate_var_spec(*expr) == Some(n@),
            None => predicate_var_spec(*expr) is None,
        },
{
    match expr {
        Expr::Call { func, args, .. } => match &**func {
            Expr::Ident { name, .. } => {
                if !str_eq(name.as_str(), "is.na") && predicate_target(name.as_str()).is_none()
                    && !str_eq(name.as_str(), "inherits") {
                    return None;
                }
                first_arg_ident(args.as_slice())
            },
            _ => None,
        },
        _ => None,
    }
}

/// The mode of the type the predicate call `name(args)` tests for.
pub open spec fn target_mode(name: Seq<char>, args: Seq<Arg>) -> Mode {
    if name == "inherits"@ {
        Mode::Opaque
    } else if name == "is.numeric"@ {
        Mode::Union
    } else if predicate_mode(name) is Some {
        predicate_mode(name)->0
    } else if name == "is.data.frame"@ {
        Mode::List
    } else if name == "is.environment"@ {
        Mode::Opaque
    } else if name == "is.null"@ {
        Mode::Null
    } else {
        Mode::Opaque
    }
}

/// A predicate call's target has the mode `target_mode` names.
pub proof fn lemma_target_mode(name: Seq<char>, args: Seq<Arg>, t: RType)
    requires
        call_target(name, args, t),
    ensures
        t.mode == target_mode(name, args),
{
}

/// The refinement a condition establishes, by the predicate calls that
/// determine its targets: `(var, name, args)` means `var` narrows to the
/// type `name(args)` tests for.
pub enum Shape {
    Unrefined,
    Positive(Seq<char>, Seq<char>, Seq<Arg>),
    Negative(Seq<char>, Seq<char>, Seq<Arg>),
    Else(Seq<char>, Seq<char>, Seq<Arg>),
    NonNull(Seq<char>),
    Scalar(Seq<char>, Option<(Seq<char>, Seq<Arg>)>),
}

/// The refinement of a predicate call `name(args)` on a bare identifier.
pub open spec fn call_shape(e: Expr, positive: bool) -> Shape {
    match e {
        Expr::Call { func, args, .. } => match ident_of(*func) {
            Some(name) => if has_call_target(name, args@) && first_ident(args@) is Some {
                if positive {
                    Shape::Positive(first_ident(args@)->0, name, args@)
                } else {
                    Shape::Negative(first_ident(args@)->0, name, args@)
                }
            } else {
                Shape::Unrefined
            },
            None => Shape::Unrefined,
        },
        _ => Shape::Unrefined,
    }
}

/// The variable of the first `length(x) != 1` (either side) in an `||` chain.
pub open spec fn first_len_var(e: Expr) -> Option<Seq<char>>
    decreases e,
{
    match e {
        Expr::BinOp { op: BinOpKind::OrOr, lhs, rhs, .. } => match first_len_var(*lhs) {
            Some(v) => Some(v),
            None => first_len_var(*rhs),
        },
        Expr::BinOp { op: BinOpKind::Ne, lhs, rhs, .. } => if literal_eq_spec(*rhs, 1) {
            length_guard_spec(*lhs)
        } else if literal_eq_spec(*lhs, 1) {
            length_guard_spec(*rhs)
        } else {
            None
        },
        _ => None,
    }
}

/// The refinement a condition establishes (see `extract_builtin_type_narrowing`).
pub open spec fn shape_of(cond: Expr) -> Shape
    decreases cond, 1int,
{
    match cond {
        Expr::Call { .. } => call_shape(cond, true),
        Expr::UnaryOp { op: UnaryOpKind::Not, expr, .. } => match length_guard_spec(*expr) {
            Some(v) => Shape::NonNull(v),
            None => call_shape(*expr, false),
        },
        Expr::BinOp { op: BinOpKind::Eq, lhs, rhs, .. } => if literal_eq_spec(*rhs, 0) {
            match length_guard_spec(*lhs) {
                Some(v) => Shape::NonNull(v),
                None => Shape::Unrefined,
            }
        } else {
            Shape::Unrefined
        },
        Expr::BinOp { op: BinOpKind::OrOr, lhs, rhs, .. } => match first_len_var(cond) {
            Some(v) => Shape::Scalar(v, first_false_target(cond, v)),
            None => match shape_of(*lhs) {
                Shape::Positive(v, name, args) => if target_mode(name, args) == Mode::Null
                    && predicate_var_spec(*rhs) == Some(v) {
                    Shape::Else(v, name, args)
                } else {
                    Shape::Unrefined
                },
                _ => Shape::Unrefined,
            },
        },
        Expr::BinOp { op, lhs, rhs, .. } => if op == BinOpKind::And || op == BinOpKind::AndAnd {
            match shape_of(*lhs) {
                Shape::Negative(v, name, args) => if target_mode(name, args) == Mode::Null {
                    Shape::Negative(v, name, args)
                } else {
                    null_negative(*rhs)
                },
                _ => null_negative(*rhs),
            }
        } else {
            Shape::Unrefined
        },
        _ => Shape::Unrefined,
    }
}

/// The shape of a conjunct that proves non-nullness, else nothing.
pub open spec fn null_negative(e: Expr) -> Shape
    decreases e, 2int,
{
    match shape_of(e) {
        Shape::Negative(v, name, args) => if target_mode(name, args) == Mode::Null {
            Shape::Negative(v, name, args)
        } else {
            Shape::Unrefined
        },
        _ => Shape::Unrefined,
    }
}

/// The predicate a false `!is.*(var)` operand of an `||` chain proves for
/// `var` (the first such operand), excluding NULL predicates.
pub open spec fn first_false_target(e: Expr, var: Seq<char>) -> Option<(Seq<char>, Seq<Arg>)>
    decreases e, 0int,
{
    match e {
        Expr::BinOp { op: BinOpKind::OrOr, lhs, rhs, .. } => match first_false_target(*lhs, var) {
            Some(t) => Some(t),
            None => first_false_target(*rhs, var),
        },
        Expr::UnaryOp { op: UnaryOpKind::Not, expr, .. } => match shape_of(*expr) {
            Shape::Positive(v, name, args) => if v == var && target_mode(name, args) != Mode::Null {
                Some((name, args))
            } else {
                None
            },
            _ => None,
        },
        _ => None,
    }
}

/// The exec refinement `r` realizes the shape `s`.
pub open spec fn narrowing_matches(r: Narrowing, s: Shape) -> bool {
    match s {
        Shape::Unrefined => r is Unrefined,
        Shape::Positive(v, name, args) => r matches Narrowing::Positive { var, target } && var@ == v
            && call_target(name, args, target),
        Shape::Negative(v, name, args) => r matches Narrowing::Negative { var, target } && var@ == v
            && call_target(name, args, target),
        Shape::Else(v, name, args) => r matches Narrowing::Else { var, target } && var@ == v
            && call_target(name, args, target),
        Shape::NonNull(v) => r matches Narrowing::NonNullElse { var } && var@ == v,
        Shape::Scalar(v, t) => r matches Narrowing::ScalarElse { var, target } && var@ == v && match t {
            None => target is None,
            Some(p) => target matches Some(tt) && call_target(p.0, p.1, tt),
        },
    }
}

/// The refinement of a predicate call on a bare identifier.
fn call_narrowing(e: &Expr, positive: bool) -> (r: Narrowing)
    ensures
        narrowing_matches(r, call_shape(*e, positive)),
{
    match e {
        Expr::Call { func, args, .. } => match &**func {
            Expr::Ident { name, .. } => {
                let target = match predicate_call_target(name.as_str(), args.as_slice()) {
                    Some(t) => t,
                    None => return Narrowing::Unrefined,
                };
                let var = match first_arg_ident(args.as_slice()) {
                    Some(v) => v,
                    None => return Narrowing::Unrefined,
                };
                if positive {
                    Narrowing::Positive { var, target }
                } else {
                    Narrowing::Negative { var, target }
                }
            },
            _ => Narrowing::Unrefined,
        },
        _ => Narrowing::Unrefined,
    }
}

/// The variable of the first `length(x) != 1` in an `||` chain.
fn first_length_not_one_var(e: &Expr) -> (r: Option<String>)
    ensures
        match r {
            Some(v) => first_len_var(*e) == Some(v@),
            None => first_len_var(*e) is None,
        },
    decreases e,
{
    match e {
        Expr::BinOp { op: BinOpKind::OrOr, lhs, rhs, .. } => match first_length_not_one_var(lhs) {
            Some(v) => Some(v),
            None => first_length_not_one_var(rhs),
        },
        Expr::BinOp { op: BinOpKind::Ne, lhs, rhs, .. } => if is_literal_eq(rhs, 1) {
            length_guard_var(lhs)
        } else if is_literal_eq(lhs, 1) {
            length_guard_var(rhs)
        } else {
            None
        },
        _ => None,
    }
}

/// The type the first false `!is.*(var)` operand of an `||` chain proves.
fn false_path_target(e: &Expr, var: &str) -> (r: Option<RType>)
    ensures
        match first_false_target(*e, var@) {
            None => r is None,
            Some(p) => r matches Some(t) && call_target(p.0, p.1, t),
        },
    decreases e, 0int,
{
    match e {
        Expr::BinOp { op: BinOpKind::OrOr, lhs, rhs, .. } => match false_path_target(lhs, var) {
            Some(t) => Some(t),
            None => false_path_target(rhs, var),
        },
        Expr::UnaryOp { op: UnaryOpKind::Not, expr, .. } => {
            match extract_builtin_type_narrowing(expr) {
                Narrowing::Positive { var: v, target } => {
                    proof {
                        let sh = shape_of(**expr);
                        if let Shape::Positive(sv, name, args) = sh {
                            lemma_target_mode(name, args, target);
                        }
                    }
                    if str_eq(v.as_str(), var) && target.mode != Mode::Null {
                        Some(target)
                    } else {
                        None
                    }
                },
                _ => None,
            }
        },
        _ => None,
    }
}

/// Fact established when a rejecting `||` chain is false: every operand
/// was false, so `length(x) != 1` proves length one, and a false
/// `!is.*(x)` operand proves its positive predicate.
pub fn scalar_false_path_fact(expr: &Expr) -> (r: Option<(String, Option<RType>)>)
    ensures
        match first_len_var(*expr) {
            None => r is None,
            Some(v) => r matches Some(p) && p.0@ == v && match first_false_target(*expr, v) {
                None => p.1 is None,
                Some(q) => p.1 matches Some(t) && call_target(q.0, q.1, t),
            },
        },
    decreases expr, 1int,
{
    let var = match first_length_not_one_var(expr) {
        Some(v) => v,
        None => return None,
    };
    let target = false_path_target(expr, var.as_str());
    Some((var, target))
}

/// Extract a type narrowing from an `if` condition: `is.*(x)` and
/// `inherits(x, "c")` predicates, their negations, zero-length guards, the
/// false path of a rejecting `||` chain, and non-null conjuncts.
pub fn extract_builtin_type_narrowing(cond: &Expr) -> (r: Narrowing)
    ensures
        narrowing_matches(r, shape_of(*cond)),
    decreases cond, 2int,
{
    match cond {
        Expr::Call { .. } => call_narrowing(cond, true),
        Expr::UnaryOp { op: UnaryOpKind::Not, expr, .. } => match length_guard_var(expr) {
            Some(var) => Narrowing::NonNullElse { var },
            None => call_narrowing(expr, false),
        },
        Expr::BinOp { op: BinOpKind::Eq, lhs, rhs, .. } => {
            if is_literal_eq(rhs, 0) {
                match length_guard_var(lhs) {
                    Some(var) => Narrowing::NonNullElse { var },
                    None => Narrowing::Unrefined,
                }
            } else {
                Narrowing::Unrefined
            }
        },
        Expr::BinOp { op: BinOpKind::OrOr, lhs, rhs, .. } => {
            match scalar_false_path_fact(cond) {
                Some((var, target)) => {
                    return Narrowing::ScalarElse { var, target };
                },
                None => {},
            }
            match extract_builtin_type_narrowing(lhs) {
                Narrowing::Positive { var, target } => {
                    proof {
                        if let Shape::Positive(sv, name, args) = shape_of(**lhs) {
                            lemma_target_mode(name, args, target);
                        }
                    }
                    if target.mode != Mode::Null {
                        return Narrowing::Unrefined;
                    }
                    match predicate_var(rhs) {
                        Some(v) => {
                            if str_eq(v.as_str(), var.as_str()) {
                                Narrowing::Else { var, target }
                            } else {
                                Narrowing::Unrefined
                            }
                        },
                        None => Narrowing::Unrefined,
                    }
                },
                _ => Narrowing::Unrefined,
            }
        },
        Expr::BinOp { op, lhs, rhs, .. } => {
            if *op == BinOpKind::And || *op == BinOpKind::AndAnd {
                match extract_builtin_type_narrowing(lhs) {
                    Narrowing::Negative { var, target } => {
                        proof {
                            if let Shape::Negative(sv, name, args) = shape_of(**lhs) {
                                lemma_target_mode(name, args, target);
                            }
                        }
                        if target.mode == Mode::Null {
                            return Narrowing::Negative { var, target };
                        }
                    },
                    _ => {},
                }
                proof {
                    assert(null_negative(**rhs) == match shape_of(**rhs) {
                        Shape::Negative(v, name, args) => if target_mode(name, args) == Mode::Null {
                            Shape::Negative(v, name, args)
                        } else {
                            Shape::Unrefined
                        },
                        _ => Shape::Unrefined,
                    });
                }
                match extract_builtin_type_narrowing(rhs) {
                    Narrowing::Negative { var, target } => {
                        proof {
                            if let Shape::Negative(sv, name, args) = shape_of(**rhs) {
                                lemma_target_mode(name, args, target);
                            }
                        }
                        if target.mode == Mode::Null {
                            Narrowing::Negative { var, target }
                        } else {
                            Narrowing::Unrefined
                        }
                    },
                    _ => Narrowing::Unrefined,
                }
            } else {
                Narrowing::Unrefined
            }
        },
        _ => Narrowing::Unrefined,
    }
}

/// The members of `ms` that are not NULL, in order.
pub open spec fn non_null(ms: Seq<RType>) -> Seq<RType>
    decreases ms.len(),
{
    if ms.len() == 0 {
        seq![]
    } else if ms.last().mode != Mode::Null {
        non_null(ms.drop_last()).push(ms.last())
    } else {
        non_null(ms.drop_last())
    }
}

/// Pointwise structural equality of type lists.
pub open spec fn seq_ty_eq(a: Seq<RType>, b: Seq<RType>) -> bool {
    a.len() == b.len() && forall|i: int| 0 <= i < a.len() ==> ty_eq(#[trigger] a[i], b[i])
}

/// Whether narrowing `t` away from NULL changes it: it is NULL, or a union
/// with a NULL member.
pub open spec fn away_applies(t: RType) -> bool {
    t.mode == Mode::Null || (t.mode == Mode::Union && t.members is Some && exists|i: int|
        0 <= i < t.members->0@.len() && (#[trigger] t.members->0@[i]).mode == Mode::Null)
}

/// `u` is `t` narrowed away from NULL: pure NULL becomes opaque; a union
/// loses its NULL members (opaque when none remain, collapsing to a single
/// remaining member).
pub open spec fn away_result(t: RType, u: RType) -> bool {
    if t.mode == Mode::Null {
        is_unknown_type(u)
    } else {
        let kept = non_null(t.members->0@);
        if kept.len() == 0 {
            is_unknown_type(u)
        } else {
            exists|ms: Seq<RType>| seq_ty_eq(ms, kept) && #[trigger] union_of(ms, u)
        }
    }
}

/// Narrow a type away from NULL; `None` when nothing changes.
pub fn narrow_away_from_null(t: &RType) -> (r: Option<RType>)
    ensures
        r is Some == away_applies(*t),
        r matches Some(u) ==> away_result(*t, u),
{
    match t.mode {
        Mode::Null => Some(RType::unknown()),
        Mode::Union => {
            let members = match &t.members {
                Some(ms) => ms,
                None => return None,
            };
            let mut has_null = false;
            let mut kept: Vec<RType> = Vec::new();
            let mut i: usize = 0;
            while i < members.len()
                invariant
                    i <= members@.len(),
                    has_null == exists|k: int| 0 <= k < i && (#[trigger] members@[k]).mode == Mode::Null,
                    seq_ty_eq(kept@, non_null(members@.take(i as int))),
                decreases members.len() - i,
            {
                let ghost before = kept@;
                assert(members@.take(i + 1).drop_last() =~= members@.take(i as int));
                if members[i].mode == Mode::Null {
                    has_null = true;
                } else {
                    kept.push(copy_type(&members[i]));
                    assert forall|k: int| 0 <= k < kept@.len() implies ty_eq(
                        #[trigger] kept@[k],
                        non_null(members@.take(i + 1))[k],
                    ) by {
                        if k < before.len() {
                            assert(kept@[k] == before[k]);
                        }
                    }
                }
                i = i + 1;
            }
            assert(members@.take(members@.len() as int) =~= members@);
            if !has_null {
                return None;
            }
            if kept.len() == 0 {
                Some(RType::unknown())
            } else {
                let ghost kv = kept@;
                let u = RType::union(kept);
                assert(seq_ty_eq(kv, non_null(members@)) && union_of(kv, u));
                Some(u)
            }
        },
        _ => None,
    }
}

/// Record that `var` is non-null, returning whether its type was narrowed.
pub fn narrow_away_from_null_in(scope: &mut Scope, var: &str) -> (r: bool)
    ensures
        r == (lookup(*old(scope), var@) matches Some(t) && away_applies(t)),
        r ==> exists|u: RType|
            away_result(lookup(*old(scope), var@)->0, u) && #[trigger] narrowed_update(
                *old(scope),
                *final(scope),
                var@,
                u,
            ),
        !r ==> *final(scope) == *old(scope),
{
    let narrowed = match scope.get(var) {
        Some(existing) => narrow_away_from_null(existing),
        None => None,
    };
    match narrowed {
        Some(n) => {
            let ghost u = n;
            scope.insert_narrowed(var, n);
            assert(narrowed_update(*old(scope), *scope, var@, u));
            true
        },
        None => false,
    }
}

/// Whether `mode` is one of the modes `target` tests for.
pub open spec fn tested(target: RType, mode: Mode) -> bool {
    if target.mode == Mode::Union {
        target.members is Some && exists|i: int|
            0 <= i < target.members->0@.len() && (#[trigger] target.members->0@[i]).mode == mode
    } else {
        mode == target.mode
    }
}

/// Every mode `existing` may take is a mode `target` tests for.
pub open spec fn exactly_tested_spec(existing: RType, target: RType) -> bool {
    if existing.mode == Mode::Union {
        existing.members is Some && existing.members->0@.len() > 0 && forall|i: int|
            0 <= i < existing.members->0@.len() ==> tested(
                target,
                (#[trigger] existing.members->0@[i]).mode,
            )
    } else {
        tested(target, existing.mode)
    }
}

fn tests_mode(target: &RType, mode: Mode) -> (r: bool)
    ensures
        r == tested(*target, mode),
{
    if target.mode == Mode::Union {
        match &target.members {
            Some(ms) => {
                let mut i: usize = 0;
                while i < ms.len()
                    invariant
                        i <= ms@.len(),
                        target.members == Some(*ms),
                        target.mode == Mode::Union,
                        forall|k: int| 0 <= k < i ==> (#[trigger] ms@[k]).mode != mode,
                    decreases ms.len() - i,
                {
                    if ms[i].mode == mode {
                        return true;
                    }
                    i = i + 1;
                }
                false
            },
            None => false,
        }
    } else {
        mode == target.mode
    }
}

/// Whether the predicate's false path excludes every mode `existing` may take.
pub fn type_is_exactly_tested_family(existing: &RType, target: &RType) -> (r: bool)
    ensures
        r == exactly_tested_spec(*existing, *target),
{
    if existing.mode == Mode::Union {
        match &existing.members {
            Some(ms) => {
                if ms.len() == 0 {
                    return false;
                }
                let mut i: usize = 0;
                while i < ms.len()
                    invariant
                        i <= ms@.len(),
                        existing.members == Some(*ms),
                        existing.mode == Mode::Union,
                        ms@.len() > 0,
                        forall|k: int| 0 <= k < i ==> tested(*target, (#[trigger] ms@[k]).mode),
                    decreases ms.len() - i,
                {
                    if !tests_mode(target, ms[i].mode) {
                        assert(!tested(*target, ms@[i as int].mode));
                        return false;
                    }
                    i = i + 1;
                }
                true
            },
            None => false,
        }
    } else {
        tests_mode(target, existing.mode)
    }
}

/// Whether two types share a storage mode.
pub open spec fn intersect_spec(a: RType, b: RType) -> bool {
    exists|i: int| 0 <= i < spec_modes(a).len() && spec_modes(b).contains(#[trigger] spec_modes(a)[i])
}

/// `n` is `target` carrying the length `length`.
pub open spec fn narrowed_value(n: RType, target: RType, length: Length) -> bool {
    n.mode == target.mode && n.length == length && ty_eq(n, RType { length, ..target })
}

/// The install rule shared by negated guards: class targets, disjoint
/// parameter defaults, and opaque/NULL/union bindings take the target.
pub open spec fn installs(scope: Scope, var: Seq<char>, existing: RType, target: RType) -> bool {
    (has_name(scope.default_parameters@, var) && !intersect_spec(existing, target))
        || has_known_class_spec(target.class) || existing.mode == Mode::Opaque || existing.mode
        == Mode::Null || existing.mode == Mode::Union
}

/// A copy of `target` carrying `length`.
fn with_length(target: &RType, length: Length) -> (n: RType)
    ensures
        narrowed_value(n, *target, length),
{
    let mut n = copy_type(target);
    n.length = length;
    n
}

/// Install `target` over `var` when the install rule allows; returns
/// whether it did.
pub fn install_positive_narrowing(scope: &mut Scope, var: &str, target: &RType) -> (r: bool)
    ensures
        r == (lookup(*old(scope), var@) matches Some(e) && installs(*old(scope), var@, e, *target)),
        r ==> exists|n: RType|
            narrowed_value(n, *target, lookup(*old(scope), var@)->0.length)
                && #[trigger] narrowed_update(*old(scope), *final(scope), var@, n),
        !r ==> *final(scope) == *old(scope),
{
    let (length, should) = match scope.get(var) {
        None => return false,
        Some(existing) => {
            let class_narrowing = target.class.has_known_class();
            let incompatible = scope.is_default_parameter(var) && !types_intersect(existing, target);
            (
                existing.length,
                incompatible || class_narrowing || matches!(
                    existing.mode,
                    Mode::Opaque | Mode::Null | Mode::Union
                ),
            )
        },
    };
    if should {
        let n = with_length(target, length);
        let ghost nv = n;
        scope.insert_narrowed(var, n);
        assert(narrowed_update(*old(scope), *scope, var@, nv));
        true
    } else {
        false
    }
}

/// Which branch of a guarded `if` a refinement is applied to.
#[derive(Clone, Copy, PartialEq, Eq, Debug, Structural)]
pub enum NarrowingBranch {
    Then,
    Else,
}

/// The install rule of a positive guard's then branch: a mode-only
/// predicate never rewrites a known atomic type; class targets, disjoint
/// parameter defaults, opaque bindings, non-NULL targets over NULL, and
/// confirmed union members do install.
pub open spec fn positive_installs(scope: Scope, var: Seq<char>, existing: RType, target: RType) -> bool {
    ||| has_name(scope.default_parameters@, var) && !intersect_spec(existing, target)
    ||| has_known_class_spec(target.class)
    ||| existing.mode == Mode::Opaque
    ||| existing.mode == Mode::Null && target.mode != Mode::Null
    ||| existing.mode == Mode::Union && (target.mode == Mode::Union || (existing.members is Some
        && exists|i: int|
        0 <= i < existing.members->0@.len() && (#[trigger] existing.members->0@[i]).mode
            == target.mode))
}

/// Whether a target is a storage-mode predicate (as opposed to a class
/// predicate, whose false path rejects no mode).
pub open spec fn is_mode_target(m: Mode) -> bool {
    m == Mode::Logical || m == Mode::Integer || m == Mode::Double || m == Mode::Character || m
        == Mode::Complex || m == Mode::Raw || m == Mode::List || m == Mode::Function || m
        == Mode::Union
}

/// The opaque type of length one.
pub open spec fn is_unknown_scalar(t: RType) -> bool {
    &&& t.mode == Mode::Opaque
    &&& t.length == Length::One
    &&& !t.class.known
    &&& t.class.names@.len() == 0
    &&& t.members is None
    &&& t.columns is None
}

/// `new` is `old` with `var` narrowed away from NULL.
pub open spec fn away_update(old: Scope, new: Scope, var: Seq<char>) -> bool {
    exists|u: RType| away_result(lookup(old, var)->0, u) && #[trigger] narrowed_update(old, new, var, u)
}

/// The effect of a guard's false path for a NULL-complement or a mode
/// predicate (`Positive` else branch, `Negative` then branch).
pub open spec fn complement_effect(old: Scope, new: Scope, var: Seq<char>, target: RType, r: Option<&str>) -> bool {
    let ex = lookup(old, var);
    if target.mode == Mode::Null && ex is Some && away_applies(ex->0) {
        r matches Some(v) && v@ == var && away_update(old, new, var)
    } else if is_mode_target(target.mode) && has_name(old.default_parameters@, var) && ex is Some
        && exactly_tested_spec(ex->0, target) {
        r matches Some(v) && v@ == var && exists|u: RType|
            is_unknown_type(u) && #[trigger] narrowed_update(old, new, var, u)
    } else {
        r is None && new == old
    }
}

/// The effect of applying refinement `n` to branch `b` of scope `old`.
pub open spec fn branch_effect(old: Scope, new: Scope, n: Narrowing, b: NarrowingBranch, r: Option<&str>) -> bool {
    match (n, b) {
        (Narrowing::Positive { var, target }, NarrowingBranch::Then) => {
            let ex = lookup(old, var@);
            if ex is Some && positive_installs(old, var@, ex->0, target) {
                r matches Some(v) && v@ == var@ && exists|t: RType|
                    narrowed_value(t, target, ex->0.length) && #[trigger] narrowed_update(old, new, var@, t)
            } else {
                r is None && new == old
            }
        },
        (Narrowing::Positive { var, target }, NarrowingBranch::Else) => complement_effect(
            old,
            new,
            var@,
            target,
            r,
        ),
        (Narrowing::Negative { var, target }, NarrowingBranch::Then) => complement_effect(
            old,
            new,
            var@,
            target,
            r,
        ),
        (Narrowing::Negative { var, target }, NarrowingBranch::Else) => {
            let ex = lookup(old, var@);
            if ex is Some && installs(old, var@, ex->0, target) {
                r matches Some(v) && v@ == var@ && exists|t: RType|
                    narrowed_value(t, target, ex->0.length) && #[trigger] narrowed_update(old, new, var@, t)
            } else {
                r is None && new == old
            }
        },
        (Narrowing::NonNullElse { var }, NarrowingBranch::Else) => if lookup(old, var@) matches Some(e)
            && away_applies(e) {
            r matches Some(v) && v@ == var@ && away_update(old, new, var@)
        } else {
            r is None && new == old
        },
        (Narrowing::Else { var, target }, NarrowingBranch::Else) => if lookup(old, var@) matches Some(e)
            && away_applies(e) {
            r matches Some(v) && v@ == var@ && away_update(old, new, var@)
        } else {
            r is None && new == old
        },
        (Narrowing::ScalarElse { var, target }, NarrowingBranch::Else) => match lookup(old, var@) {
            None => r is None && new == old,
            Some(e) => if e.mode == Mode::Null && !has_name(old.default_parameters@, var@) {
                r is None && new == (Scope { unreachable: true, ..old })
            } else {
                r matches Some(v) && v@ == var@ && exists|t: RType|
                    #[trigger] narrowed_update(old, new, var@, t) && match target {
                        Some(tt) => narrowed_value(t, tt, Length::One),
                        None => if e.mode == Mode::Null {
                            is_unknown_scalar(t)
                        } else {
                            narrowed_value(t, e, Length::One)
                        },
                    }
            },
        },
        _ => r is None && new == old,
    }
}

/// Whether `existing` holds a member of mode `mode`.
fn has_member_mode(existing: &RType, mode: Mode) -> (r: bool)
    ensures
        r == (existing.members is Some && exists|i: int|
            0 <= i < existing.members->0@.len() && (#[trigger] existing.members->0@[i]).mode == mode),
{
    match &existing.members {
        Some(ms) => {
            let mut i: usize = 0;
            while i < ms.len()
                invariant
                    i <= ms@.len(),
                    existing.members == Some(*ms),
                    forall|k: int| 0 <= k < i ==> (#[trigger] ms@[k]).mode != mode,
                decreases ms.len() - i,
            {
                if ms[i].mode == mode {
                    return true;
                }
                i = i + 1;
            }
            false
        },
        None => false,
    }
}

/// The false path of a NULL or mode predicate over `var`.
fn apply_complement(scope: &mut Scope, var: &str, target: &RType) -> (r: bool)
    ensures
        complement_effect(
            *old(scope),
            *final(scope),
            var@,
            *target,
            if r {
                Some(var)
            } else {
                None
            },
        ),
{
    if target.mode == Mode::Null && narrow_away_from_null_in(scope, var) {
        return true;
    }
    let tested = match scope.get(var) {
        Some(existing) => matches!(
            target.mode,
            Mode::Logical | Mode::Integer | Mode::Double | Mode::Character | Mode::Complex | Mode::Raw
                | Mode::List | Mode::Function | Mode::Union
        ) && scope.is_default_parameter(var) && type_is_exactly_tested_family(existing, target),
        None => false,
    };
    if tested {
        let u = RType::unknown();
        let ghost uv = u;
        scope.insert_narrowed(var, u);
        assert(narrowed_update(*old(scope), *scope, var@, uv));
        return true;
    }
    false
}

/// Apply only the selected branch's refinement of `narrowing` to `scope`,
/// returning the refined name.
pub fn apply_narrowing_branch<'a>(
    scope: &mut Scope,
    narrowing: &'a Narrowing,
    branch: NarrowingBranch,
) -> (r: Option<&'a str>)
    ensures
        branch_effect(*old(scope), *final(scope), *narrowing, branch, r),
{
    match (narrowing, branch) {
        (Narrowing::Positive { var, target }, NarrowingBranch::Then) => {
            let found = match scope.get(var.as_str()) {
                Some(existing) => {
                    let class_narrowing = target.class.has_known_class();
                    let incompatible = scope.is_default_parameter(var.as_str()) && !types_intersect(
                        existing,
                        target,
                    );
                    let install = incompatible || class_narrowing || match existing.mode {
                        Mode::Opaque => true,
                        Mode::Null => target.mode != Mode::Null,
                        Mode::Union => target.mode == Mode::Union || has_member_mode(
                            existing,
                            target.mode,
                        ),
                        _ => false,
                    };
                    Some((existing.length, install))
                },
                None => None,
            };
            match found {
                Some((length, true)) => {
                    let n = with_length(target, length);
                    let ghost nv = n;
                    scope.insert_narrowed(var.as_str(), n);
                    assert(narrowed_update(*old(scope), *scope, var@, nv));
                    Some(var.as_str())
                },
                _ => None,
            }
        },
        (Narrowing::Positive { var, target }, NarrowingBranch::Else) => {
            if apply_complement(scope, var.as_str(), target) {
                Some(var.as_str())
            } else {
                None
            }
        },
        (Narrowing::Negative { var, target }, NarrowingBranch::Then) => {
            if apply_complement(scope, var.as_str(), target) {
                Some(var.as_str())
            } else {
                None
            }
        },
        (Narrowing::Negative { var, target }, NarrowingBranch::Else) => {
            if install_positive_narrowing(scope, var.as_str(), target) {
                Some(var.as_str())
            } else {
                None
            }
        },
        (Narrowing::NonNullElse { var }, NarrowingBranch::Else) => {
            if narrow_away_from_null_in(scope, var.as_str()) {
                Some(var.as_str())
            } else {
                None
            }
        },
        (Narrowing::Else { var, target }, NarrowingBranch::Else) => {
            if narrow_away_from_null_in(scope, var.as_str()) {
                Some(var.as_str())
            } else {
                None
            }
        },
        (Narrowing::ScalarElse { var, target }, NarrowingBranch::Else) => {
            let scalar = match scope.get(var.as_str()) {
                None => return None,
                Some(existing) => {
                    if existing.mode == Mode::Null && !scope.is_default_parameter(var.as_str()) {
                        None
                    } else {
                        match target {
                            Some(t) => Some(with_length(t, Length::One)),
                            None => if existing.mode == Mode::Null {
                                let mut u = RType::unknown();
                                u.length = Length::One;
                                Some(u)
                            } else {
                                Some(with_length(existing, Length::One))
                            },
                        }
                    }
                },
            };
            match scalar {
                None => {
                    scope.unreachable = true;
                    None
                },
                Some(n) => {
                    let ghost nv = n;
                    scope.insert_narrowed(var.as_str(), n);
                    assert(narrowed_update(*old(scope), *scope, var@, nv));
                    Some(var.as_str())
                },
            }
        },
        _ => None,
    }
}

/// The refined name a branch result reports, as text.
pub open spec fn refined(r: Option<&str>) -> Option<Seq<char>> {
    match r {
        Some(v) => Some(v@),
        None => None,
    }
}

/// The two branch scopes `apply_narrowing` builds from `base`, with the
/// names either branch narrowed.
pub open spec fn narrowing_split(base: Scope, narrowing: Narrowing, t: Scope, e: Scope, names: Seq<String>) -> bool {
    exists|t0: Scope, e0: Scope, rt: Option<&str>, re: Option<&str>|
        #![trigger branch_effect(t0, t, narrowing, NarrowingBranch::Then, rt), branch_effect(e0, e, narrowing, NarrowingBranch::Else, re)]
        scope_eq(base, t0) && scope_eq(base, e0) && branch_effect(t0, t, narrowing, NarrowingBranch::Then, rt)
            && branch_effect(e0, e, narrowing, NarrowingBranch::Else, re) && forall|n: Seq<char>|
            has_name(names, n) == (refined(rt) == Some(n) || refined(re) == Some(n))
}

/// Separate scopes for the `then` and `else` branches of a guarded `if`,
/// each a copy of `base` with its branch's refinement applied, and the
/// names refined in either (branch-local facts a later merge must not fold
/// back into the parent).
pub fn apply_narrowing(base: &Scope, narrowing: &Narrowing) -> (r: (Scope, Scope, Vec<String>))
    ensures
        exists|t0: Scope, e0: Scope, rt: Option<&str>, re: Option<&str>|
            #![trigger branch_effect(t0, r.0, *narrowing, NarrowingBranch::Then, rt), branch_effect(e0, r.1, *narrowing, NarrowingBranch::Else, re)]
            scope_eq(*base, t0) && scope_eq(*base, e0) && branch_effect(
                t0,
                r.0,
                *narrowing,
                NarrowingBranch::Then,
                rt,
            ) && branch_effect(e0, r.1, *narrowing, NarrowingBranch::Else, re) && forall|n: Seq<char>|
                has_name(r.2@, n) == (refined(rt) == Some(n) || refined(re) == Some(n)),
{
    let mut then_scope = copy_scope(base);
    let mut else_scope = copy_scope(base);
    let ghost t0 = then_scope;
    let ghost e0 = else_scope;
    let then_name = apply_narrowing_branch(&mut then_scope, narrowing, NarrowingBranch::Then);
    let else_name = apply_narrowing_branch(&mut else_scope, narrowing, NarrowingBranch::Else);
    let mut names: Vec<String> = Vec::new();
    match then_name {
        Some(v) => names.push(v.to_string()),
        None => {},
    }
    match else_name {
        Some(v) => names.push(v.to_string()),
        None => {},
    }
    assert forall|n: Seq<char>|
        has_name(names@, n) == (refined(then_name) == Some(n) || refined(else_name) == Some(n)) by {
        if refined(then_name) == Some(n) {
            assert(names@[0]@ == n);
        }
        if refined(else_name) == Some(n) {
            assert(names@[names@.len() - 1]@ == n);
        }
    }
    let r = (then_scope, else_scope, names);
    assert(branch_effect(t0, r.0, *narrowing, NarrowingBranch::Then, then_name));
    assert(branch_effect(e0, r.1, *narrowing, NarrowingBranch::Else, else_name));
    assert(scope_eq(*base, t0) && scope_eq(*base, e0));
    r
}

/// The subject of an assertion call: its first argument, when that is an
/// identifier.
pub open spec fn assertion_subject(args: Seq<Arg>) -> Option<Seq<char>> {
    if args.len() > 0 {
        match args[0].value {
            Expr::Ident { name, .. } => Some(name@),
            _ => None,
        }
    } else {
        None
    }
}

impl crate::checker::Checker {
    /// The `assert_*_scalar` stage of call inference: an assertion helper
    /// returns `NULL` and binds its identifier subject to the asserted
    /// scalar type; other names are not its business.
    pub fn infer_assert_scalar_call(&mut self, lookup_name: &str, args: &[Arg], scope: &mut Scope) -> (r: Option<RType>)
        ensures
            *final(self) == *old(self),
            assertion_mode(lookup_name@) is None ==> r is None && *final(scope) == *old(scope),
            assertion_mode(lookup_name@) matches Some(m) ==> {
                &&& r matches Some(t) && is_plain_type(t, Mode::Null, Length::Zero)
                &&& match assertion_subject(args@) {
                    Some(v) => {
                        &&& lookup(*final(scope), v) matches Some(t) && is_plain_type(t, m, Length::One)
                        &&& forall|n: Seq<char>| n != v ==> #[trigger] lookup(*final(scope), n) == lookup(*old(scope), n)
                        &&& crate::scope::same_flags(*old(scope), *final(scope))
                    },
                    None => *final(scope) == *old(scope),
                }
            },
    {
        let target = match assertion_call_target(lookup_name) {
            Some(t) => t,
            None => return None,
        };
        if args.len() > 0 {
            if let Expr::Ident { name, .. } = &args[0].value {
                scope.insert(name.as_str(), target);
            }
        }
        Some(RType::new(Mode::Null, Length::Zero))
    }
}

} // verus!
