//! RY105: a length guard compared with zero or a negative bound whose
//! measured operand is length 1 by construction, so the guard is constant.
use vstd::prelude::*;
use crate::ast::{Arg, BinOpKind, Expr, Span, UnaryOpKind};
use crate::checker::{Checker, Severity, diag_views, reports_added};
use crate::condition::{arithmetic_spec, comparison_spec, is_arithmetic, is_comparison, op_symbol, op_text};
use crate::scope::{Scope, has_name, lookup, names_contain};
use crate::shapes::{bare_callee, bare_callee_spec, callee_text, nonpositive_literal, scalar_local_spec, zero_or_negative_literal};
use crate::subscript::{bare_name, bare_spec};
use crate::text::str_eq;

verus! {

/// What name resolution at a site answers for the checks below: which
/// callees (as written) resolve to base R, which of them have a stub that
/// declares a classless length-1 result, which generics may dispatch on
/// their arguments' class, and whether syntax or particular operators may
/// be rebound there.
#[derive(Debug)]
pub struct ResolutionFacts {
    pub base_callees: Vec<String>,
    pub scalar_reductions: Vec<String>,
    pub dispatching_generics: Vec<String>,
    /// Packages were attached by a bare name, so lookups may reach them.
    pub bare_loaded: bool,
    /// A binding may replace the syntax operators.
    pub syntax_rebound: bool,
    /// Operator symbols a binding may replace.
    pub rebound_operators: Vec<String>,
}

/// Whether an operator symbol keeps its base meaning at the site.
pub open spec fn operator_base_spec(symbol: Seq<char>, scope: Scope, facts: ResolutionFacts) -> bool {
    &&& !scope.ops_environment_unknown
    &&& !scope.data_mask_unknown
    &&& !scope.search_path_unknown
    &&& !facts.bare_loaded
    &&& !facts.syntax_rebound
    &&& !has_name(facts.rebound_operators@, symbol)
}

/// The symbol of a unary operator.
pub open spec fn unary_text(op: UnaryOpKind) -> Seq<char> {
    match op {
        UnaryOpKind::Neg => "-"@,
        UnaryOpKind::Not => "!"@,
    }
}

/// Whether an argument is proven classless: a literal, a local binding
/// (not a parameter, default or narrowing) of known empty class, or base
/// arithmetic, `:` or a unary operator over such arguments.
pub open spec fn classless_arg_spec(e: Expr, scope: Scope, facts: ResolutionFacts) -> bool
    decreases e,
{
    match e {
        Expr::Ident { name, .. } => {
            &&& !(has_name(scope.parameters@, name@) || has_name(scope.default_parameters@, name@) || has_name(
                scope.narrowed_bindings@,
                name@,
            ))
            &&& lookup(scope, name@) matches Some(t)
            &&& t.class.known
            &&& t.class.names@.len() == 0
        },
        Expr::Logical(..) => true,
        Expr::Integer(..) => true,
        Expr::Double(..) => true,
        Expr::String(..) => true,
        Expr::Null(..) => true,
        Expr::Na(..) => true,
        Expr::BinOp { op, lhs, rhs, .. } => if arithmetic_spec(op) || op == BinOpKind::Colon {
            operator_base_spec(op_text(op), scope, facts) && classless_arg_spec(*lhs, scope, facts)
                && classless_arg_spec(*rhs, scope, facts)
        } else {
            false
        },
        Expr::UnaryOp { op, expr, .. } => operator_base_spec(unary_text(op), scope, facts) && classless_arg_spec(
            *expr,
            scope,
            facts,
        ),
        _ => false,
    }
}

/// Whether a scalar call's result class is proven not to come from its
/// arguments: the callee cannot dispatch, or every argument is classless.
pub open spec fn classless_call_spec(callee: Seq<char>, args: Seq<Arg>, scope: Scope, facts: ResolutionFacts) -> bool {
    let bare = bare_spec(callee);
    !(bare == "length"@ || has_name(facts.dispatching_generics@, bare)) || forall|i: int|
        0 <= i < args.len() ==> #[trigger] classless_arg_spec(args[i].value, scope, facts)
}

/// Why `e` is length 1 by construction: a base call whose stub returns a
/// classless scalar, on proven-classless arguments when it can dispatch;
/// or a local scalar binding (see `scalar_local_spec`).
pub open spec fn scalar_reason(e: Expr, scope: Scope, facts: ResolutionFacts) -> Option<Seq<char>> {
    match e {
        Expr::Call { func, args, .. } => match callee_text(*func) {
            Some(c) => if has_name(facts.base_callees@, c) && args@.len() > 0 && has_name(facts.scalar_reductions@, c)
                && classless_call_spec(c, args@, scope, facts) {
                Some("`"@ + bare_spec(c) + "()` always returns a single value"@)
            } else {
                None
            },
            None => None,
        },
        _ => scalar_local_spec(e, scope),
    }
}

/// The operand a direct `length(x)` call measures.
pub open spec fn length_operand_spec(e: Expr) -> Option<Expr> {
    match e {
        Expr::Call { args, .. } => if bare_callee_spec(e) == Some("length"@) && args@.len() == 1 && args@[0].name is None {
            Some(args@[0].value)
        } else {
            None
        },
        _ => None,
    }
}

/// The name a `length(...)` call is looked up by.
pub open spec fn length_name_spec(call: Expr) -> Seq<char> {
    match call {
        Expr::Call { func, .. } => match *func {
            Expr::Ident { name, .. } => name@,
            _ => "length"@,
        },
        _ => "length"@,
    }
}

/// A comparison with its sides swapped.
pub open spec fn mirrored(op: BinOpKind) -> BinOpKind {
    match op {
        BinOpKind::Lt => BinOpKind::Gt,
        BinOpKind::Le => BinOpKind::Ge,
        BinOpKind::Gt => BinOpKind::Lt,
        BinOpKind::Ge => BinOpKind::Le,
        other => other,
    }
}

/// The RY105 report for a comparison: a `length(x)` operand against a
/// literal at most zero, with `length` resolving to base and `x` length 1
/// by construction. The guard is then always FALSE for `==`, `<`, `<=`
/// (read with `length(...)` on the left) and always TRUE otherwise.
pub open spec fn constant_length_reports(
    op: BinOpKind,
    lhs: Expr,
    rhs: Expr,
    span: Span,
    scope: Scope,
    facts: ResolutionFacts,
) -> Seq<(Severity, Span, Seq<char>, Seq<char>)> {
    let site = match (length_operand_spec(lhs), length_operand_spec(rhs)) {
        (Some(m), None) => if nonpositive_literal(rhs) {
            Some((m, true, lhs))
        } else {
            None
        },
        (None, Some(m)) => if nonpositive_literal(lhs) {
            Some((m, false, rhs))
        } else {
            None
        },
        _ => None,
    };
    if !comparison_spec(op) {
        seq![]
    } else {
        match site {
            Some((measured, on_left, call)) => if has_name(facts.base_callees@, length_name_spec(call)) {
                match scalar_reason(measured, scope, facts) {
                    Some(reason) => {
                        let effective = if on_left {
                            op
                        } else {
                            mirrored(op)
                        };
                        let outcome = if effective == BinOpKind::Eq || effective == BinOpKind::Lt || effective
                            == BinOpKind::Le {
                            "FALSE"@
                        } else {
                            "TRUE"@
                        };
                        seq![
                            (
                                Severity::Warning,
                                span,
                                "RY105"@,
                                reason + ", so `length(...)` is 1 here and this length guard is always "@ + outcome,
                            ),
                        ]
                    },
                    None => seq![],
                }
            } else {
                seq![]
            },
            None => seq![],
        }
    }
}

/// The operand a direct `length(x)` call measures (see
/// `length_operand_spec`).
fn length_operand(e: &Expr) -> (r: Option<&Expr>)
    ensures
        match r {
            Some(m) => length_operand_spec(*e) == Some(*m),
            None => length_operand_spec(*e) is None,
        },
{
    proof {
        reveal_strlit("length");
    }
    match e {
        Expr::Call { args, .. } => {
            let is_length = match bare_callee(e) {
                Some(b) => str_eq(b.as_str(), "length"),
                None => false,
            };
            if is_length && args.len() == 1 && args[0].name.is_none() {
                Some(&args[0].value)
            } else {
                None
            }
        },
        _ => None,
    }
}

impl Checker {
    /// Whether an operator symbol keeps its base meaning at the site (see
    /// `operator_base_spec`).
    pub fn scalar_call_operator_is_base(&self, symbol: &str, scope: &Scope, facts: &ResolutionFacts) -> (r: bool)
        ensures
            r == operator_base_spec(symbol@, *scope, *facts),
    {
        !scope.ops_environment_unknown && !scope.data_mask_unknown && !scope.search_path_unknown && !facts.bare_loaded
            && !facts.syntax_rebound && !names_contain(&facts.rebound_operators, symbol)
    }

    /// Whether a unary operator keeps its base meaning at the site.
    pub fn scalar_call_unary_operator_is_base(&self, op: UnaryOpKind, scope: &Scope, facts: &ResolutionFacts) -> (r: bool)
        ensures
            r == operator_base_spec(unary_text(op), *scope, *facts),
    {
        let symbol = match op {
            UnaryOpKind::Neg => "-",
            UnaryOpKind::Not => "!",
        };
        self.scalar_call_operator_is_base(symbol, scope, facts)
    }

    /// Whether an argument of a scalar call is proven classless (see
    /// `classless_arg_spec`).
    pub fn scalar_call_argument_is_classless(&self, expr: &Expr, scope: &Scope, facts: &ResolutionFacts) -> (r: bool)
        ensures
            r == classless_arg_spec(*expr, *scope, *facts),
        decreases expr,
    {
        match expr {
            Expr::Ident { name, .. } => {
                if scope.is_parameter(name.as_str()) || scope.is_default_parameter(name.as_str()) || names_contain(
                    &scope.narrowed_bindings,
                    name.as_str(),
                ) {
                    return false;
                }
                match scope.get(name.as_str()) {
                    Some(t) => t.class.known && t.class.names.len() == 0,
                    None => false,
                }
            },
            Expr::Logical(..) | Expr::Integer(..) | Expr::Double(..) | Expr::String(..) | Expr::Null(..) | Expr::Na(
                ..,
            ) => true,
            Expr::BinOp { op, lhs, rhs, .. } => {
                if is_arithmetic(*op) || *op == BinOpKind::Colon {
                    self.scalar_call_operator_is_base(op_symbol(*op), scope, facts)
                        && self.scalar_call_argument_is_classless(lhs, scope, facts)
                        && self.scalar_call_argument_is_classless(rhs, scope, facts)
                } else {
                    false
                }
            },
            Expr::UnaryOp { op, expr: inner, .. } => {
                self.scalar_call_unary_operator_is_base(*op, scope, facts) && self.scalar_call_argument_is_classless(
                    inner,
                    scope,
                    facts,
                )
            },
            _ => false,
        }
    }

    /// Whether a scalar call's class cannot come from its arguments (see
    /// `classless_call_spec`).
    pub fn scalar_call_is_classless(&self, callee: &str, args: &Vec<Arg>, scope: &Scope, facts: &ResolutionFacts) -> (r: bool)
        ensures
            r == classless_call_spec(callee@, args@, *scope, *facts),
    {
        let bare = bare_name(callee);
        let may_dispatch = str_eq(bare.as_str(), "length") || names_contain(&facts.dispatching_generics, bare.as_str());
        if !may_dispatch {
            return true;
        }
        let mut i: usize = 0;
        while i < args.len()
            invariant
                i <= args@.len(),
                bare_spec(callee@) == "length"@ || has_name(facts.dispatching_generics@, bare_spec(callee@)),
                forall|k: int| 0 <= k < i ==> #[trigger] classless_arg_spec(args@[k].value, *scope, *facts),
            decreases args.len() - i,
        {
            if !self.scalar_call_argument_is_classless(&args[i].value, scope, facts) {
                return false;
            }
            i = i + 1;
        }
        true
    }

    /// Whether the callee's stub declares a classless length-1 result.
    pub fn is_typeshed_scalar_reduction(&self, callee: &str, facts: &ResolutionFacts) -> (r: bool)
        ensures
            r == has_name(facts.scalar_reductions@, callee@),
    {
        names_contain(&facts.scalar_reductions, callee)
    }

    /// Why an expression is length 1 by construction, phrased for a
    /// diagnostic (see `scalar_reason`).
    pub fn scalar_by_construction(&self, expr: &Expr, scope: &Scope, facts: &ResolutionFacts) -> (r: Option<String>)
        ensures
            match r {
                Some(m) => scalar_reason(*expr, *scope, *facts) == Some(m@),
                None => scalar_reason(*expr, *scope, *facts) is None,
            },
    {
        let (func, args) = match expr {
            Expr::Call { func, args, .. } => (func, args),
            _ => return self.scalar_by_construction_local(expr, scope),
        };
        let callee = match &**func {
            Expr::Ident { name, .. } => name.as_str(),
            Expr::String(name, _) => name.as_str(),
            _ => return None,
        };
        let bare = bare_name(callee);
        if !names_contain(&facts.base_callees, callee) {
            return None;
        }
        if args.len() > 0 && self.is_typeshed_scalar_reduction(callee, facts) && self.scalar_call_is_classless(
            callee,
            args,
            scope,
            facts,
        ) {
            let mut m = String::from_str("`");
            m.append(bare.as_str());
            m.append("()` always returns a single value");
            return Some(m);
        }
        None
    }

    /// RY105: `length(x)` compared with zero or a negative literal when
    /// `length` resolves to base and `x` is length 1 by construction: the
    /// guard is constant (see `constant_length_reports`).
    pub fn check_constant_length_comparison(
        &mut self,
        op: BinOpKind,
        lhs: &Expr,
        rhs: &Expr,
        span: Span,
        scope: &Scope,
        facts: &ResolutionFacts,
    )
        ensures
            reports_added(*old(self), *final(self), constant_length_reports(op, *lhs, *rhs, span, *scope, *facts)),
    {
        let ghost c0 = *self;
        assert(diag_views(self.diagnostics@) =~= diag_views(c0.diagnostics@) + seq![]);
        if !is_comparison(op) {
            return;
        }
        let (measured, measured_on_left, length_call) = match (length_operand(lhs), length_operand(rhs)) {
            (Some(m), None) => {
                if zero_or_negative_literal(rhs) {
                    (m, true, lhs)
                } else {
                    return;
                }
            },
            (None, Some(m)) => {
                if zero_or_negative_literal(lhs) {
                    (m, false, rhs)
                } else {
                    return;
                }
            },
            _ => return,
        };
        let length_name = match length_call {
            Expr::Call { func, .. } => match &**func {
                Expr::Ident { name, .. } => name.as_str(),
                _ => "length",
            },
            _ => "length",
        };
        if !names_contain(&facts.base_callees, length_name) {
            return;
        }
        let reason = match self.scalar_by_construction(measured, scope, facts) {
            Some(r) => r,
            None => return,
        };
        let effective_op = if measured_on_left {
            op
        } else {
            match op {
                BinOpKind::Lt => BinOpKind::Gt,
                BinOpKind::Le => BinOpKind::Ge,
                BinOpKind::Gt => BinOpKind::Lt,
                BinOpKind::Ge => BinOpKind::Le,
                other => other,
            }
        };
        let outcome = match effective_op {
            BinOpKind::Eq | BinOpKind::Lt | BinOpKind::Le => "FALSE",
            _ => "TRUE",
        };
        let mut message = reason;
        message.append(", so `length(...)` is 1 here and this length guard is always ");
        message.append(outcome);
        self.emit(Severity::Warning, span, "RY105", message);
    }
}

} // verus!
