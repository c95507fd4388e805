//! Expression inference and statement walking: the recursive driver that
//! applies the per-node rules (literals, names, operators, subscripts,
//! writes, calls, blocks, conditionals, loops and function bodies) over a
//! syntax tree, threading the scope and the findings through in
//! evaluation order.
//!
//! Each rule is stated as a relation over a derivation that records the
//! intermediate types, checker states and scopes; a function's contract is
//! that its result, findings and new scope are derivable.
use vstd::prelude::*;
use crate::ast::{Arg, BinOpKind, Expr, IndexKind, Param, Span, Stmt, UnaryOpKind};
use crate::binop::{binop_reports, binop_result};
use crate::checker::{Checker, Severity, defines, diag_views, reports_added, same_state};
use crate::index::{dispatches_dollar, index_reports, index_result};
use crate::index_write::{IndexWrite, index_write_outcome, index_write_reports, index_write_scope, rebound};
use crate::infer_leaf::{NameFacts, colon_length, literal_type, na_comparison_message, na_literal, unary_reports, unary_result, unbound_name_reports, unbound_name_type};
use crate::construct::literal_int;
use crate::merge::merge_effect;
use crate::narrow::{Narrowing, narrowing_split};
use crate::scope::{Scope, copy_scope, find_entry, has_name, lookup, names_contain, scope_eq};
use crate::stub_narrowing::{refinement, refinement_matches};
use crate::subscript::{is_return_call, known_null_arithmetic_operand, known_null_spec, return_call_spec};
use crate::infer_leaf::{colon_literal_type, infer_literal};
use crate::narrow::apply_narrowing;
use crate::types::{Length, Mode, RType, copy_type, is_plain_type, is_unknown_type, join_of, ty_eq};
use crate::typeshed::{EvalMode, FunctionSig, ParamSpec, assoc, eval_mode_for_arg, eval_mode_spec, match_params, spec_names};
use crate::matching::{ArgumentMatch, arg_tags, match_spec};
use crate::callsites::{callee_name, callee_spec, is_user_infix_name, user_infix_spec};
use crate::subscript::{bare_name, bare_spec};
use crate::call_checks::{aggregate_reports, math_reports, not_callable_message, printf_reports};
use crate::call_rules::has_arg_reports;
use crate::typed_args::{checks_against_stub, typeshed_call_checked, user_call_checked};
use crate::signatures::{constructor_result, constructs, sig_result};
use crate::construct::{rep_spec, vector_length, vector_mode};
use crate::checker::{UserFn, UserParam, tag_text};
use crate::modes::{mode_name, mode_text};
use crate::condition::{cond_names_expr, merge_condition_assignments, op_symbol, op_text};
use crate::guards::parameter_vector_guard;
use crate::scope::{names_same, same_flags};
use crate::s3::{S3Witness, s3_binop, s3_unary};

verus! {

/// A derivation: the intermediate results an inference passes through.
pub enum Deriv {
    Leaf,
    Node {
        /// Derivations of the parts, in evaluation order.
        ds: Seq<Deriv>,
        /// Intermediate types.
        ts: Seq<RType>,
        /// Checker states between the steps.
        cs: Seq<Checker>,
        /// Scopes between the steps.
        ss: Seq<Scope>,
        /// Return types each statement of a list collected.
        ps: Seq<Seq<RType>>,
        /// The narrowing a condition gave, and the names it refined.
        nar: Option<Narrowing>,
        names: Seq<String>,
        /// What is known of an unbound name.
        facts: Option<NameFacts>,
        /// How a call's arguments matched the formals of its signature.
        bind: Option<ArgumentMatch>,
        /// What S3 dispatch of an operator gave.
        s3: Option<RType>,
    },
}

/// The parts a derivation records.
pub open spec fn parts(d: Deriv) -> (Seq<Deriv>, Seq<RType>, Seq<Checker>, Seq<Scope>) {
    match d {
        Deriv::Node { ds, ts, cs, ss, .. } => (ds, ts, cs, ss),
        Deriv::Leaf => (Seq::empty(), Seq::empty(), Seq::empty(), Seq::empty()),
    }
}

/// The return types a derivation of a statement list records.
pub open spec fn pushes(d: Deriv) -> Seq<Seq<RType>> {
    match d {
        Deriv::Node { ps, .. } => ps,
        Deriv::Leaf => Seq::empty(),
    }
}

/// The narrowing and refined names a derivation records.
pub open spec fn narrowing_of(d: Deriv) -> (Option<Narrowing>, Seq<String>) {
    match d {
        Deriv::Node { nar, names, .. } => (nar, names),
        Deriv::Leaf => (None, Seq::empty()),
    }
}

/// The argument match a derivation records.
pub open spec fn binding_of(d: Deriv) -> Option<ArgumentMatch> {
    match d {
        Deriv::Node { bind, .. } => bind,
        Deriv::Leaf => None,
    }
}

/// The S3 dispatch result a derivation records.
pub open spec fn s3_of(d: Deriv) -> Option<RType> {
    match d {
        Deriv::Node { s3, .. } => s3,
        Deriv::Leaf => None,
    }
}

/// The name facts a derivation records.
pub open spec fn facts_of(d: Deriv) -> Option<NameFacts> {
    match d {
        Deriv::Node { facts, .. } => facts,
        Deriv::Leaf => None,
    }
}

/// The facts the stubs and the file give about an unbound `name`.
pub open spec fn facts_for(c: Checker, name: Seq<char>, f: NameFacts) -> bool {
    &&& f.ambient == has_name(c.stubs.globals@, name)
    &&& f.external == has_name(c.stubs.external@, name)
    &&& match assoc(c.stubs.datasets@, name, 0) {
        Some(t) => f.dataset matches Some(x) && ty_eq(x, t),
        None => f.dataset is None,
    }
    &&& f.function == (assoc(c.stubs.functions@, name, 0) is Some || defines(c.fn_table@, name))
    &&& f.project_variable == has_name(c.stubs.known_vars@, name)
}

/// Whether a binary operator is a pipe, which this driver does not model.
pub open spec fn pipe_op(op: BinOpKind) -> bool {
    op == BinOpKind::PipeForward || op == BinOpKind::PipeNative || op == BinOpKind::PipeTee || op == BinOpKind::PipeAssign
}

/// Whether `a:b` is between whole-number literals whose length fits.
pub open spec fn colon_literals(lhs: Expr, rhs: Expr) -> bool {
    match (literal_int(lhs), literal_int(rhs)) {
        (Some(a), Some(b)) => colon_length(a, b) - 1 <= i64::MAX && colon_length(a, b) <= usize::MAX,
        _ => false,
    }
}

/// The RY034 finding of a comparison with an `NA` literal.
pub open spec fn na_reports(op: BinOpKind, lhs: Expr, rhs: Expr, span: Span) -> Seq<(Severity, Span, Seq<char>, Seq<char>)> {
    if (op == BinOpKind::Eq || op == BinOpKind::Ne) && (na_literal(lhs) || na_literal(rhs)) {
        seq![(Severity::Warning, span, "RY034"@, na_comparison_message())]
    } else {
        seq![]
    }
}

/// Whether a subscript's arguments are inferred: those of `[` and `[[`;
/// `$` and `@` name a field.
pub open spec fn infers_index_args(kind: IndexKind) -> bool {
    kind == IndexKind::Single || kind == IndexKind::Double
}

/// Whether a `$` or `[[` receiver is a parameter whose type comes from its
/// default.
pub open spec fn default_receiver(base: Expr, s: Scope) -> bool {
    match base {
        Expr::Ident { name, .. } => has_name(s.default_parameters@, name@),
        _ => false,
    }
}

/// The type an element of a vector of type `t` has: a scalar of an atomic
/// mode, opaque otherwise.
pub open spec fn element_of(t: RType, e: RType) -> bool {
    if t.mode == Mode::Logical || t.mode == Mode::Integer || t.mode == Mode::Double || t.mode == Mode::Complex || t.mode
        == Mode::Character || t.mode == Mode::Raw {
        is_plain_type(e, t.mode, Length::One)
    } else {
        is_unknown_type(e)
    }
}

/// `steps` inserts each binding of `from`, in order, into `base`.
pub open spec fn bindings_copied(from: Scope, base: Scope, steps: Seq<Scope>, types: Seq<RType>) -> bool {
    &&& steps.len() == from.bindings@.len() + 1
    &&& types.len() == from.bindings@.len()
    &&& steps[0] == base
    &&& forall|k: int|
        0 <= k < from.bindings@.len() ==> ty_eq(#[trigger] types[k], from.bindings@[k].1) && rebound(
            steps[k],
            steps[k + 1],
            from.bindings@[k].0@,
            types[k],
        )
}

/// `steps` binds each formal of `params`, in order, to the opaque type,
/// starting from a copy of `base`.
pub open spec fn params_bound(base: Scope, params: Seq<Param>, steps: Seq<Scope>, types: Seq<RType>) -> bool {
    &&& steps.len() == params.len() + 1
    &&& types.len() == params.len()
    &&& scope_eq(base, steps[0])
    &&& forall|k: int|
        0 <= k < params.len() ==> is_unknown_type(#[trigger] types[k]) && rebound(steps[k], steps[k + 1], params[k].name@, types[k])
}

/// The return types the first `n` statements collected, in order.
pub open spec fn flatten(ps: Seq<Seq<RType>>, n: int) -> Seq<RType>
    decreases n,
{
    if n <= 0 {
        Seq::empty()
    } else {
        flatten(ps, n - 1) + ps[n - 1]
    }
}

/// `after` is `before` with the bindings the assignments inside the
/// operand `expr` made in `evaluated` copied back (see
/// `merge_condition_assignments`).
pub open spec fn condition_merged(before: Scope, evaluated: Scope, expr: Expr, after: Scope) -> bool {
    &&& forall|n: Seq<char>|
        #![trigger lookup(after, n)]
        cond_names_expr(expr).contains(n) && lookup(evaluated, n) is Some ==> lookup(after, n) is Some && ty_eq(
            lookup(after, n)->0,
            lookup(evaluated, n)->0,
        )
    &&& forall|n: Seq<char>|
        #![trigger lookup(after, n)]
        !(cond_names_expr(expr).contains(n) && lookup(evaluated, n) is Some) ==> lookup(after, n) == lookup(before, n)
    &&& same_flags(before, after)
    &&& names_same(before.parameters@, after.parameters@)
}

/// Whether a finding with `code` is among `added`.
pub open spec fn has_code(added: Seq<(Severity, Span, Seq<char>, Seq<char>)>, code: Seq<char>) -> bool {
    exists|k: int| 0 <= k < added.len() && (#[trigger] added[k]).2 == code
}

/// The RY032 message of a scalar logical operator whose right operand
/// applies a vectorized predicate to a parameter the left one guards.
pub open spec fn parameter_vector_message(op: BinOpKind) -> Seq<char> {
    "`"@ + op_text(op)
        + "` operand depends on a parameter whose length is not known to be 1; R errors at runtime for vector operands"@
}

/// Inferring `e` in scope `s` from checker state `c` gives `r`, leaves the
/// checker in `c2` (its findings appended) and the scope in `s2`.
pub open spec fn infer_rel(c: Checker, s: Scope, e: Expr, d: Deriv, r: RType, c2: Checker, s2: Scope) -> bool
    decreases e, 1nat,
{
    let (ds, ts, cs, ss) = parts(d);
    match e {
        Expr::Logical(..) | Expr::Integer(..) | Expr::Double(..) | Expr::String(..) | Expr::Null(..) | Expr::Na(..) => {
            literal_type(e, Some(r)) && c2 == c && s2 == s
        },
        Expr::Unknown(..) | Expr::Missing(..) => is_unknown_type(r) && c2 == c && s2 == s,
        Expr::Function { .. } => is_plain_type(r, Mode::Function, Length::One) && c2 == c && s2 == s,
        Expr::Ident { name, span } => s2 == s && match lookup(s, name@) {
            Some(t) => ty_eq(r, t) && c2 == c,
            None => facts_of(d) is Some && facts_for(c, name@, facts_of(d)->0) && unbound_name_type(
                name@,
                facts_of(d)->0,
                s.data_mask_unknown,
                r,
            ) && reports_added(c, c2, unbound_name_reports(name@, facts_of(d)->0, s.data_mask_unknown, span)),
        },
        Expr::UnaryOp { op, expr, span } => infer_rel(c, s, *expr, ds[0], ts[0], cs[0], ss[0]) && (exists|w: S3Witness|
            s3_unary(c.stubs.s3_methods@, op, ts[0], w, s3_of(d))) && unary_result(op, ts[0], s3_of(d), r) && reports_added(
            cs[0],
            c2,
            unary_reports(op, ts[0], span, s3_of(d)),
        ) && s2 == ss[0],
        Expr::BinOp { op, lhs, rhs, span } => if op == BinOpKind::Assign || op == BinOpKind::SuperAssign {
            infer_rel(c, s, *rhs, ds[0], ts[0], cs[0], ss[0]) && r == ts[0] && assign_rel(cs[0], ss[0], *lhs, ts[0], ds[1], c2, s2)
        } else if pipe_op(op) {
            infer_rel(c, s, *lhs, ds[0], ts[0], c2, s2) && is_unknown_type(r)
        } else if op == BinOpKind::Colon && colon_literals(*lhs, *rhs) {
            is_plain_type(r, Mode::Integer, Length::Known(colon_length(literal_int(*lhs)->0, literal_int(*rhs)->0) as usize))
                && c2 == c && s2 == s
        } else if op == BinOpKind::AndAnd || op == BinOpKind::OrOr {
            let (nar, names) = narrowing_of(d);
            let known = known_null_spec(*lhs, s2) || known_null_spec(*rhs, s2);
            let added = binop_reports(op, ts[0], ts[1], span, known, None);
            &&& infer_rel(c, s, *lhs, ds[0], ts[0], cs[0], ss[0])
            &&& nar is Some
            &&& refinement_matches(nar->0, refinement(*lhs, ss[0], c.stubs.predicates@))
            &&& narrowing_split(ss[0], nar->0, ss[1], ss[2], names)
            &&& infer_rel(cs[0], if op == BinOpKind::AndAnd { ss[1] } else { ss[2] }, *rhs, ds[1], ts[1], cs[1], ss[3])
            &&& condition_merged(ss[0], ss[3], *rhs, s2)
            &&& binop_result(op, ts[0], ts[1], known, None, r)
            &&& reports_added(cs[1], cs[2], added)
            &&& reports_added(
                cs[2],
                c2,
                if parameter_vector_guard(op, *lhs, *rhs, ss[0]) && !has_code(added, "RY032"@) {
                    seq![(Severity::Warning, span, "RY032"@, parameter_vector_message(op))]
                } else {
                    seq![]
                },
            )
        } else {
            let known = known_null_spec(*lhs, s) || known_null_spec(*rhs, s);
            reports_added(c, cs[0], na_reports(op, *lhs, *rhs, span)) && infer_rel(cs[0], s, *lhs, ds[0], ts[0], cs[1], ss[0])
                && infer_rel(cs[1], ss[0], *rhs, ds[1], ts[1], cs[2], ss[1]) && (exists|w: S3Witness|
                s3_binop(c.stubs.s3_methods@, op, ts[0], ts[1], w, s3_of(d))) && binop_result(op, ts[0], ts[1], known, s3_of(d), r)
                && reports_added(cs[2], c2, binop_reports(op, ts[0], ts[1], span, known, s3_of(d))) && s2 == ss[1]
        },
        Expr::Index { base, kind, args, span } => {
            let (ads, ats, acs, ass) = parts(ds[1]);
            let dnr = default_receiver(*base, ss[0]);
            let after = if infers_index_args(kind) {
                ss[1]
            } else {
                ss[0]
            };
            infer_rel(c, s, *base, ds[0], ts[0], cs[0], ss[0]) && ats.len() == args@.len() && (if infers_index_args(kind) {
                args_rel(cs[0], ss[0], args@, args@.len() as int, ads, ats, acs, ass, cs[1], ss[1])
            } else {
                (forall|i: int| 0 <= i < ats.len() ==> is_unknown_type(#[trigger] ats[i])) && cs[1] == cs[0]
            }) && index_result(ts[0], kind, args@, dnr, ats, r) && reports_added(
                cs[1],
                c2,
                index_reports(ts[0], kind, args@, span, dnr),
            ) && s2 == (if dispatches_dollar(ts[0], kind, dnr) {
                Scope { effects_unknown: true, ..after }
            } else {
                after
            })
        },
        Expr::Block { body, .. } => if body@.len() == 0 {
            is_plain_type(r, Mode::Null, Length::Zero) && c2 == c && s2 == s
        } else {
            let (bds, bts, bcs, bss) = parts(ds[0]);
            stmts_rel(c, s, body@, body@.len() - 1, bds, bcs, bss, pushes(ds[0]), cs[0], ss[0]) && value_rel(
                cs[0],
                ss[0],
                body@[body@.len() - 1],
                ds[1],
                r,
                c2,
                s2,
            )
        },
        Expr::If { cond, then, else_, .. } => {
            let (nar, names) = narrowing_of(d);
            infer_rel(c, s, *cond, ds[0], ts[0], cs[0], ss[0]) && nar is Some && refinement_matches(
                nar->0,
                refinement(*cond, ss[0], c.stubs.predicates@),
            ) && narrowing_split(ss[0], nar->0, ss[1], ss[2], names) && infer_rel(cs[0], ss[1], *then, ds[1], ts[1], cs[1], ss[3])
                && (match else_ {
                Some(x) => infer_rel(cs[1], ss[2], *x, ds[2], ts[2], c2, ss[4]),
                None => is_plain_type(ts[2], Mode::Null, Length::Zero) && c2 == cs[1],
            }) && crate::types::join_of(ts[1], ts[2], r) && s2 == ss[0]
        },
        Expr::Call { .. } => call_rel(c, s, e, d, r, c2, s2),
    }
}

/// Inferring the first `n` arguments of `args` in order: `ts` their types,
/// `cs` and `ss` the checker states and scopes before each.
pub open spec fn args_rel(
    c: Checker,
    s: Scope,
    args: Seq<Arg>,
    n: int,
    ds: Seq<Deriv>,
    ts: Seq<RType>,
    cs: Seq<Checker>,
    ss: Seq<Scope>,
    c2: Checker,
    s2: Scope,
) -> bool
    decreases args, if n < 0 { 0 } else { n as nat },
{
    if n <= 0 {
        c2 == c && s2 == s
    } else if n > args.len() {
        false
    } else {
        args_rel(c, s, args, n - 1, ds, ts, cs, ss, cs[n - 1], ss[n - 1]) && infer_rel(
            cs[n - 1],
            ss[n - 1],
            args[n - 1].value,
            ds[n - 1],
            ts[n - 1],
            c2,
            s2,
        )
    }
}

/// Assigning a value of type `v` to `target`.
pub open spec fn assign_rel(c: Checker, s: Scope, target: Expr, v: RType, d: Deriv, c2: Checker, s2: Scope) -> bool
    decreases target, 2nat,
{
    let (ds, ts, cs, ss) = parts(d);
    match target {
        Expr::Ident { name, .. } => ty_eq(ts[0], v) && rebound(s, s2, name@, ts[0]) && c2 == c,
        Expr::Index { base, kind, args, span } => ty_eq(ts[0], v) && reports_added(
            c,
            cs[0],
            index_write_reports(s, *base, kind, args@, span),
        ) && index_write_scope(s, ss[0], *base, kind, args@, ts[0]) && match index_write_outcome(s, *base, kind, args@) {
            IndexWrite::Written => c2 == cs[0] && s2 == ss[0],
            IndexWrite::UnboundBase => infer_rel(cs[0], ss[0], *base, ds[0], ts[1], c2, s2),
            IndexWrite::Unmodelled => infer_rel(cs[0], ss[0], target, ds[0], ts[1], c2, s2),
        },
        _ => infer_rel(c, s, target, ds[0], ts[0], c2, s2),
    }
}

/// Walking the first `n` statements of `body` in order.
pub open spec fn stmts_rel(
    c: Checker,
    s: Scope,
    body: Seq<Stmt>,
    n: int,
    ds: Seq<Deriv>,
    cs: Seq<Checker>,
    ss: Seq<Scope>,
    ps: Seq<Seq<RType>>,
    c2: Checker,
    s2: Scope,
) -> bool
    decreases body, if n < 0 { 0 } else { n as nat },
{
    if n <= 0 {
        c2 == c && s2 == s
    } else if n > body.len() {
        false
    } else {
        stmts_rel(c, s, body, n - 1, ds, cs, ss, ps, cs[n - 1], ss[n - 1]) && walk_rel(
            cs[n - 1],
            ss[n - 1],
            body[n - 1],
            ds[n - 1],
            c2,
            s2,
            ps[n - 1],
        )
    }
}

/// Walking a function body: a copy of the scope with each formal bound to
/// the opaque type, then the statements.
pub open spec fn body_rel(c: Checker, s: Scope, params: Seq<Param>, body: Seq<Stmt>, d: Deriv, c2: Checker) -> bool
    decreases body, body.len() + 1nat,
{
    let (ds, ts, cs, ss) = parts(d);
    let (bds, bts, bcs, bss) = parts(ds[0]);
    params_bound(s, params, ss, ts) && stmts_rel(
        c,
        ss[params.len() as int],
        body,
        body.len() as int,
        bds,
        bcs,
        bss,
        pushes(ds[0]),
        c2,
        bss[body.len() as int],
    )
}

/// Walking statement `st`; `pushed` are the return types it collects.
pub open spec fn walk_rel(c: Checker, s: Scope, st: Stmt, d: Deriv, c2: Checker, s2: Scope, pushed: Seq<RType>) -> bool
    decreases st, 0nat,
{
    let (ds, ts, cs, ss) = parts(d);
    match st {
        Stmt::Assign { target, value, .. } => infer_rel(c, s, value, ds[0], ts[0], cs[0], ss[0]) && assign_rel(
            cs[0],
            ss[0],
            target,
            ts[0],
            ds[1],
            cs[1],
            s2,
        ) && pushed == Seq::<RType>::empty() && match value {
            Expr::Function { params, body, .. } => body_rel(cs[1], s2, params@, body@, ds[2], c2),
            _ => c2 == cs[1],
        },
        Stmt::Expr(e) => if return_call_spec(e) {
            match e {
                Expr::Call { args, .. } => if args@.len() > 0 {
                    infer_rel(c, s, args@[0].value, ds[0], ts[0], c2, s2) && pushed == seq![ts[0]]
                } else {
                    c2 == c && s2 == s && pushed.len() == 1 && is_plain_type(pushed[0], Mode::Null, Length::Zero)
                },
                _ => false,
            }
        } else {
            infer_rel(c, s, e, ds[0], ts[0], c2, s2) && pushed == Seq::<RType>::empty()
        },
        Stmt::Return { value, .. } => match value {
            Some(v) => infer_rel(c, s, v, ds[0], ts[0], c2, s2) && pushed == seq![ts[0]],
            None => c2 == c && s2 == s && pushed.len() == 1 && is_plain_type(pushed[0], Mode::Null, Length::Zero),
        },
        Stmt::If { cond, then, else_, .. } => {
            let (nar, names) = narrowing_of(d);
            let (tds, tts, tcs, tss) = parts(ds[1]);
            let (eds, ets, ecs, ess) = parts(ds[2]);
            infer_rel(c, s, cond, ds[0], ts[0], cs[0], ss[0]) && nar is Some && refinement_matches(
                nar->0,
                refinement(cond, ss[0], c.stubs.predicates@),
            ) && narrowing_split(ss[0], nar->0, ss[1], ss[2], names) && stmts_rel(
                cs[0],
                ss[1],
                then@,
                then@.len() as int,
                tds,
                tcs,
                tss,
                pushes(ds[1]),
                cs[1],
                ss[3],
            ) && (match else_ {
                Some(eb) => stmts_rel(cs[1], ss[2], eb@, eb@.len() as int, eds, ecs, ess, pushes(ds[2]), c2, ss[4]) && pushed
                    == flatten(pushes(ds[1]), then@.len() as int) + flatten(pushes(ds[2]), eb@.len() as int),
                None => c2 == cs[1] && ss[4] == ss[2] && pushed == flatten(pushes(ds[1]), then@.len() as int),
            }) && merge_effect(ss[0], s2, ss[3], ss[4], else_ is Some, names)
        },
        Stmt::For { name, iter, body, .. } => {
            let (bds, bts, bcs, bss) = parts(ds[1]);
            let (cds, cts, ccs, steps) = parts(ds[2]);
            infer_rel(c, s, iter, ds[0], ts[0], cs[0], ss[0]) && scope_eq(ss[0], ss[1]) && element_of(ts[0], ts[1]) && rebound(
                ss[1],
                ss[2],
                name@,
                ts[1],
            ) && stmts_rel(cs[0], ss[2], body@, body@.len() as int, bds, bcs, bss, pushes(ds[1]), c2, ss[3]) && pushed
                == flatten(pushes(ds[1]), body@.len() as int) && bindings_copied(ss[3], ss[0], steps, cts) && s2
                == steps.last()
        },
        Stmt::While { cond, body, .. } => {
            let (bds, bts, bcs, bss) = parts(ds[1]);
            infer_rel(c, s, cond, ds[0], ts[0], cs[0], ss[0]) && stmts_rel(
                cs[0],
                ss[0],
                body@,
                body@.len() as int,
                bds,
                bcs,
                bss,
                pushes(ds[1]),
                c2,
                s2,
            ) && pushed == flatten(pushes(ds[1]), body@.len() as int)
        },
        Stmt::FunctionDef { name, params, body, .. } => is_plain_type(ts[0], Mode::Function, Length::One) && (match name {
            Some(n) => rebound(s, s2, n@, ts[0]),
            None => s2 == s,
        }) && body_rel(c, s2, params@, body@, ds[0], c2) && pushed == Seq::<RType>::empty(),
    }
}

/// The value of the last statement of a block.
pub open spec fn value_rel(c: Checker, s: Scope, st: Stmt, d: Deriv, r: RType, c2: Checker, s2: Scope) -> bool
    decreases st, 1nat,
{
    let (ds, ts, cs, ss) = parts(d);
    match st {
        Stmt::Expr(e) => infer_rel(c, s, e, d, r, c2, s2),
        Stmt::Assign { target, value, .. } => infer_rel(c, s, value, ds[0], ts[0], cs[0], ss[0]) && r == ts[0] && assign_rel(
            cs[0],
            ss[0],
            target,
            ts[0],
            ds[1],
            c2,
            s2,
        ),
        Stmt::Return { value, .. } => match value {
            Some(v) => infer_rel(c, s, v, d, r, c2, s2),
            None => is_plain_type(r, Mode::Null, Length::Zero) && c2 == c && s2 == s,
        },
        _ => walk_rel(c, s, st, ds[0], c2, s2, pushes(d)[0]) && is_unknown_type(r),
    }
}

/// The name a call of `name` stands for: the function an alias in scope
/// names, else `name`.
pub open spec fn call_semantic(s: Scope, name: Seq<char>) -> Seq<char> {
    match assoc(s.function_aliases@, name, 0) {
        Some(t) => t@,
        None => name,
    }
}

/// Whether argument `a` is named `n`.
pub open spec fn arg_named(a: Arg, n: Seq<char>) -> bool {
    match a.name {
        Some(x) => x@ == n,
        None => false,
    }
}

/// Whether `e` calls the function named `n`.
pub open spec fn calls_ident(e: Expr, n: Seq<char>) -> bool {
    match e {
        Expr::Call { func, .. } => match *func {
            Expr::Ident { name, .. } => name@ == n,
            _ => false,
        },
        _ => false,
    }
}

/// Whether an argument passes `envir = asNamespace(...)`.
pub open spec fn registers_namespace(args: Seq<Arg>) -> bool {
    exists|i: int| 0 <= i < args.len() && arg_named(#[trigger] args[i], "envir"@) && calls_ident(args[i].value, "asNamespace"@)
}

/// Whether a call is the two-argument `assign(name, value)`, which binds
/// `name` in the current scope.
pub open spec fn local_assign(semantic: Seq<char>, args: Seq<Arg>) -> bool {
    semantic == "assign"@ && args.len() == 2 && !registers_namespace(args)
}

/// `switch(EXPR, ...)` gives the join of its alternatives, the arguments
/// after the selector, taken in order (`copies` are their types as the
/// join reads them, `accs` the running joins); opaque without one.
pub open spec fn alternatives_joined(ts: Seq<RType>, copies: Seq<RType>, accs: Seq<RType>, r: RType) -> bool {
    if ts.len() <= 1 {
        is_unknown_type(r)
    } else {
        &&& copies.len() == ts.len() - 1
        &&& accs.len() == ts.len() - 1
        &&& forall|k: int| 0 <= k < copies.len() ==> ty_eq(#[trigger] copies[k], ts[k + 1])
        &&& accs[0] == copies[0]
        &&& forall|k: int| 1 <= k < accs.len() ==> join_of(accs[k - 1], copies[k], #[trigger] accs[k])
        &&& r == accs.last()
    }
}

/// The function a call of `name` looks up: the name an alias in scope
/// stands for, without its namespace qualifier unless it spells an infix
/// operator.
pub open spec fn call_lookup(s: Scope, name: Seq<char>) -> Seq<char> {
    let semantic = match assoc(s.function_aliases@, name, 0) {
        Some(t) => t@,
        None => name,
    };
    if user_infix_spec(semantic) {
        semantic
    } else {
        bare_spec(semantic)
    }
}

/// Whether a callee name carries a namespace qualifier (`pkg::f`).
pub open spec fn qualified(name: Seq<char>) -> bool {
    bare_spec(name).len() < name.len()
}

/// Whether argument `i` is passed unevaluated: its formal's declared
/// evaluation mode is other than normal.
pub open spec fn deferred(sig: Option<FunctionSig>, bind: Option<ArgumentMatch>, i: int) -> bool {
    match (sig, bind) {
        (Some(g), Some(b)) => match eval_mode_spec(g, b, i) {
            Some(m) => m != EvalMode::Normal,
            None => false,
        },
        _ => false,
    }
}

/// Inferring the first `n` arguments of a call in order; an argument passed
/// unevaluated is not inferred and has the opaque type.
pub open spec fn call_args_rel(
    c: Checker,
    s: Scope,
    args: Seq<Arg>,
    n: int,
    sig: Option<FunctionSig>,
    bind: Option<ArgumentMatch>,
    ds: Seq<Deriv>,
    ts: Seq<RType>,
    cs: Seq<Checker>,
    ss: Seq<Scope>,
    c2: Checker,
    s2: Scope,
) -> bool
    decreases args, if n < 0 { 0 } else { n as nat },
{
    if n <= 0 {
        c2 == c && s2 == s
    } else if n > args.len() {
        false
    } else {
        call_args_rel(c, s, args, n - 1, sig, bind, ds, ts, cs, ss, cs[n - 1], ss[n - 1]) && if deferred(sig, bind, n - 1) {
            is_unknown_type(ts[n - 1]) && c2 == cs[n - 1] && s2 == ss[n - 1]
        } else {
            infer_rel(cs[n - 1], ss[n - 1], args[n - 1].value, ds[n - 1], ts[n - 1], c2, s2)
        }
    }
}

/// Every argument tag and every formal name of `params` fit together in a
/// `usize`.
pub open spec fn stub_tags_fit(args: Seq<Arg>, params: Seq<ParamSpec>) -> bool {
    forall|i: int, j: int|
        0 <= i < args.len() && 0 <= j < params.len() ==> tag_text(#[trigger] args[i]).len() + (#[trigger] params[j]).name@.len()
            <= usize::MAX
}

/// Every argument tag and every formal name of a file function fit
/// together in a `usize`.
pub open spec fn user_tags_fit(args: Seq<Arg>, params: Seq<UserParam>) -> bool {
    forall|i: int, j: int|
        0 <= i < args.len() && 0 <= j < params.len() ==> tag_text(#[trigger] args[i]).len() + (#[trigger] params[j]).name@.len()
            <= usize::MAX
}

/// No formal's declared type is read: one `None` per formal.
pub open spec fn no_expectations(sig: Option<FunctionSig>) -> Seq<Option<RType>> {
    match sig {
        Some(g) => Seq::new(g.params@.len(), |i: int| None),
        None => Seq::empty(),
    }
}

/// The argument checks of a call (see `check_call_arguments`), made when
/// the tags and formal names fit in a `usize`.
pub open spec fn arguments_checked(
    a: Checker,
    b: Checker,
    lookup: Seq<char>,
    uf: Option<UserFn>,
    sig: Option<FunctionSig>,
    lexical: bool,
    args: Seq<Arg>,
    ts: Seq<RType>,
    span: Span,
) -> bool {
    let fits = (uf matches Some(f) ==> user_tags_fit(args, f.params@)) && (sig matches Some(g) ==> stub_tags_fit(args, g.params@));
    if !fits {
        b == a
    } else if a.validate_user_call_arguments && uf is Some {
        user_call_checked(a, b, lookup, uf->0, args, span)
    } else if sig is Some && checks_against_stub(a.validate_user_call_arguments, uf is Some, defines(a.fn_table@, lookup), lexical) {
        typeshed_call_checked(a, b, lookup, sig->0, args, ts, no_expectations(sig), false, span)
    } else {
        b == a
    }
}

/// Whether the scope binds the callee to a value that may be a function
/// (a function, an opaque value or a union); a qualified name is not
/// looked up in the scope.
pub open spec fn function_callee(s: Scope, name: Seq<char>, lookup_name: Seq<char>) -> bool {
    !qualified(name) && lookup(s, lookup_name) is Some && {
        let m = lookup(s, lookup_name)->0.mode;
        m == Mode::Function || m == Mode::Opaque || m == Mode::Union
    }
}

/// The mode of a value the scope binds the callee to when that value
/// cannot be a function.
pub open spec fn value_callee(s: Scope, name: Seq<char>, lookup_name: Seq<char>) -> Option<Mode> {
    if qualified(name) || lookup(s, lookup_name) is None || function_callee(s, name, lookup_name) {
        None
    } else {
        Some(lookup(s, lookup_name)->0.mode)
    }
}

/// The type a call of `lookup` gives, and the RY070 it may report. A
/// callee the scope binds to a possible function gives the opaque type;
/// one bound to a value that is no function, with no stub or file
/// function of that name, is reported and opaque. Otherwise `c(...)` and
/// the constructors (`c`, `list`, `data.frame`, `t`, `as.data.frame`) are
/// built from their arguments, a call of the file's own function is
/// opaque, `vector` and `rep` take their length from literal arguments,
/// and a stub function gives its declared return.
pub open spec fn call_result(
    a: Checker,
    b: Checker,
    s: Scope,
    name: Seq<char>,
    lookup_name: Seq<char>,
    sig: Option<FunctionSig>,
    user_defined: bool,
    args: Seq<Arg>,
    ts: Seq<RType>,
    span: Span,
    r: RType,
) -> bool {
    if function_callee(s, name, lookup_name) {
        is_unknown_type(r) && b == a
    } else if value_callee(s, name, lookup_name) is Some && sig is None && !defines(a.fn_table@, lookup_name) {
        is_unknown_type(r) && reports_added(
            a,
            b,
            seq![(Severity::Error, span, "RY070"@, not_callable_message(name, value_callee(s, name, lookup_name)->0))],
        )
    } else {
        b == a && if constructs(lookup_name, ts) {
            constructor_result(lookup_name, args, ts, r)
        } else if user_defined {
            is_unknown_type(r)
        } else if lookup_name == "vector"@ {
            is_plain_type(r, vector_mode(args), vector_length(args))
        } else if lookup_name == "rep"@ {
            rep_spec(args, ts, r)
        } else {
            match sig {
                Some(g) => sig_result(g, args, ts, r),
                None => is_unknown_type(r),
            }
        }
    }
}

/// The mode of a literal used as a callee (`1(x)`), which cannot be called.
pub open spec fn literal_callee_mode(func: Expr) -> Option<Mode> {
    match func {
        Expr::Logical(..) => Some(Mode::Logical),
        Expr::Integer(..) => Some(Mode::Integer),
        Expr::Double(..) => Some(Mode::Double),
        Expr::Null(..) => Some(Mode::Null),
        Expr::Na(t, _) => if t.mode != Mode::Opaque {
            Some(t.mode)
        } else {
            None
        },
        _ => None,
    }
}

/// The RY070 message for a literal callee.
pub open spec fn literal_callee_message(m: Mode) -> Seq<char> {
    "cannot call a value of mode `"@ + mode_text(m) + "`"@
}

/// `d` derives inferring the arguments of a call of `lookup`: the
/// signature the stubs give `lookup` decides which are passed unevaluated
/// (see `call_args_rel`), under the argument match `d` records.
pub open spec fn arguments_inferred(c: Checker, s: Scope, lookup: Seq<char>, args: Seq<Arg>, d: Deriv, ts: Seq<RType>, c2: Checker, s2: Scope) -> bool {
    let sig = assoc(c.stubs.functions@, lookup, 0);
    &&& call_args_done(c, s, args, sig, binding_of(d), d, ts, c2, s2)
    &&& (sig is Some ==> binding_of(d) is Some && match_spec(spec_names(sig->0.params@), arg_tags(args), binding_of(d)->0))
}

/// A call: a function literal called in place, or a head that names no
/// function, infers its parts and gives the opaque type. A named call
/// reports RY093, RY100 and RY094, infers its arguments (those passed
/// unevaluated excepted), checks them against the callee's formals and
/// gives `call_result`.
pub open spec fn call_rel(c: Checker, s: Scope, e: Expr, d: Deriv, r: RType, c2: Checker, s2: Scope) -> bool
    decreases e, 0nat,
{
    let (ds, ts, cs, ss) = parts(d);
    let (ads, ats, acs, ass) = parts(ds[0]);
    match e {
        Expr::Call { func, args, span } => if *func is Function {
            args_rel(c, s, args@, args@.len() as int, ads, ats, acs, ass, c2, s2) && is_unknown_type(r)
        } else {
            match callee_spec(*func) {
                None => {
                    let (fds, fts, fcs, fss) = parts(ds[1]);
                    (match literal_callee_mode(*func) {
                        Some(m) => reports_added(c, cs[0], seq![(Severity::Error, span, "RY070"@, literal_callee_message(m))])
                            && ss[0] == s,
                        None => infer_rel(c, s, *func, ds[0], ts[0], cs[0], ss[0]),
                    }) && args_rel(cs[0], ss[0], args@, args@.len() as int, fds, fts, fcs, fss, c2, s2) && is_unknown_type(r)
                },
                Some(name) => {
                    let lookup = call_lookup(s, name);
                    let sig = assoc(c.stubs.functions@, lookup, 0);
                    let lexical = !qualified(name) && has_name(s.lexical_functions@, lookup);
                    let uf = if lexical {
                        None
                    } else {
                        assoc(c.fn_table@, lookup, 0)
                    };
                    &&& reports_added(c, cs[0], aggregate_reports(lookup, args@))
                    &&& reports_added(cs[0], cs[1], math_reports(lookup, args@))
                    &&& if lookup == "hasArg"@ {
                        &&& is_plain_type(r, Mode::Logical, Length::One)
                        &&& reports_added(cs[1], c2, has_arg_reports(args@, cs[1].enclosing_formals@, span))
                        &&& s2 == s
                    } else {
                        &&& reports_added(cs[1], cs[2], printf_reports(lookup, args@))
                        &&& if call_semantic(s, name) == "switch"@ {
                            &&& args_rel(cs[2], s, args@, args@.len() as int, ads, ats, acs, ass, c2, s2)
                            &&& ats.len() == args@.len()
                            &&& exists|copies: Seq<RType>, accs: Seq<RType>| alternatives_joined(ats, copies, accs, r)
                        } else if local_assign(call_semantic(s, name), args@) {
                            &&& infer_rel(cs[2], s, args@[0].value, ds[0], ts[0], cs[3], ss[0])
                            &&& infer_rel(cs[3], ss[0], args@[1].value, ds[1], ts[1], c2, ss[1])
                            &&& r == ts[1]
                            &&& match args@[0].value {
                                Expr::String(n, _) => ty_eq(ts[2], ts[1]) && rebound(ss[1], s2, n@, ts[2]),
                                _ => s2 == ss[1],
                            }
                        } else {
                            &&& (sig is Some ==> binding_of(ds[0]) is Some && match_spec(
                                spec_names(sig->0.params@),
                                arg_tags(args@),
                                binding_of(ds[0])->0,
                            ))
                            &&& ats.len() == args@.len()
                            &&& call_args_rel(cs[2], s, args@, args@.len() as int, sig, binding_of(ds[0]), ads, ats, acs, ass, cs[3], s2)
                            &&& arguments_checked(cs[3], cs[4], lookup, uf, sig, lexical, args@, ats, span)
                            &&& call_result(cs[4], c2, s2, name, lookup, sig, uf is Some, args@, ats, span, r)
                        }
                    }
                },
            }
        },
        _ => false,
    }
}

/// `d` derives walking the first `n` statements of `body`.
pub open spec fn stmts_done(c: Checker, s: Scope, body: Seq<Stmt>, n: int, d: Deriv, c2: Checker, s2: Scope) -> bool {
    &&& stmts_rel(c, s, body, n, parts(d).0, parts(d).2, parts(d).3, pushes(d), c2, s2)
    &&& parts(d).0.len() == n
    &&& parts(d).2.len() == n
    &&& parts(d).3.len() == n
    &&& pushes(d).len() == n
}

/// `d` derives inferring every argument of `args`, with types `ts`.
pub open spec fn args_done(c: Checker, s: Scope, args: Seq<Arg>, d: Deriv, ts: Seq<RType>, c2: Checker, s2: Scope) -> bool {
    &&& args_rel(c, s, args, args.len() as int, parts(d).0, ts, parts(d).2, parts(d).3, c2, s2)
    &&& parts(d).1 == ts
    &&& ts.len() == args.len()
}

/// `d` derives inferring every argument of a call, with types `ts`.
pub open spec fn call_args_done(
    c: Checker,
    s: Scope,
    args: Seq<Arg>,
    sig: Option<FunctionSig>,
    bind: Option<ArgumentMatch>,
    d: Deriv,
    ts: Seq<RType>,
    c2: Checker,
    s2: Scope,
) -> bool {
    &&& call_args_rel(c, s, args, args.len() as int, sig, bind, parts(d).0, ts, parts(d).2, parts(d).3, c2, s2)
    &&& parts(d).1 == ts
    &&& ts.len() == args.len()
}

/// The signature at `k` of a signature table, if `k` names one.
pub open spec fn sig_at(table: Seq<(String, FunctionSig)>, k: Option<usize>) -> Option<FunctionSig> {
    match k {
        Some(i) => Some(table[i as int].1),
        None => None,
    }
}

/// The function at `k` of a function table, if `k` names one.
pub open spec fn fn_at(table: Seq<(String, UserFn)>, k: Option<usize>) -> Option<UserFn> {
    match k {
        Some(i) => Some(table[i as int].1),
        None => None,
    }
}

/// A derivation node recording an S3 dispatch result.
pub open spec fn node_s3(ds: Seq<Deriv>, ts: Seq<RType>, cs: Seq<Checker>, ss: Seq<Scope>, s3: Option<RType>) -> Deriv {
    Deriv::Node { ds, ts, cs, ss, ps: Seq::empty(), nar: None, names: Seq::empty(), facts: None, bind: None, s3 }
}

/// A derivation node.
pub open spec fn node(ds: Seq<Deriv>, ts: Seq<RType>, cs: Seq<Checker>, ss: Seq<Scope>) -> Deriv {
    Deriv::Node { ds, ts, cs, ss, ps: Seq::empty(), nar: None, names: Seq::empty(), facts: None, bind: None, s3: None }
}

/// `args_rel` over `n` arguments reads only the first `n` entries.
proof fn lemma_args_prefix(
    c: Checker,
    s: Scope,
    args: Seq<Arg>,
    n: int,
    ds: Seq<Deriv>,
    ts: Seq<RType>,
    cs: Seq<Checker>,
    ss: Seq<Scope>,
    ds2: Seq<Deriv>,
    ts2: Seq<RType>,
    cs2: Seq<Checker>,
    ss2: Seq<Scope>,
    c2: Checker,
    s2: Scope,
)
    requires
        0 <= n,
        n <= ds.len(),
        n <= ts.len(),
        n <= cs.len(),
        n <= ss.len(),
        n <= ds2.len(),
        n <= ts2.len(),
        n <= cs2.len(),
        n <= ss2.len(),
        forall|i: int| 0 <= i < n ==> ds[i] == ds2[i] && ts[i] == ts2[i] && cs[i] == cs2[i] && ss[i] == ss2[i],
        args_rel(c, s, args, n, ds, ts, cs, ss, c2, s2),
    ensures
        args_rel(c, s, args, n, ds2, ts2, cs2, ss2, c2, s2),
    decreases n,
{
    if n > 0 {
        lemma_args_prefix(c, s, args, n - 1, ds, ts, cs, ss, ds2, ts2, cs2, ss2, cs[n - 1], ss[n - 1]);
    }
}

/// `call_args_rel` over `n` arguments reads only the first `n` entries.
proof fn lemma_call_args_prefix(
    c: Checker,
    s: Scope,
    args: Seq<Arg>,
    n: int,
    sig: Option<FunctionSig>,
    bind: Option<ArgumentMatch>,
    ds: Seq<Deriv>,
    ts: Seq<RType>,
    cs: Seq<Checker>,
    ss: Seq<Scope>,
    ds2: Seq<Deriv>,
    ts2: Seq<RType>,
    cs2: Seq<Checker>,
    ss2: Seq<Scope>,
    c2: Checker,
    s2: Scope,
)
    requires
        0 <= n,
        n <= ds.len(),
        n <= ts.len(),
        n <= cs.len(),
        n <= ss.len(),
        n <= ds2.len(),
        n <= ts2.len(),
        n <= cs2.len(),
        n <= ss2.len(),
        forall|i: int| 0 <= i < n ==> ds[i] == ds2[i] && ts[i] == ts2[i] && cs[i] == cs2[i] && ss[i] == ss2[i],
        call_args_rel(c, s, args, n, sig, bind, ds, ts, cs, ss, c2, s2),
    ensures
        call_args_rel(c, s, args, n, sig, bind, ds2, ts2, cs2, ss2, c2, s2),
    decreases n,
{
    if n > 0 {
        lemma_call_args_prefix(c, s, args, n - 1, sig, bind, ds, ts, cs, ss, ds2, ts2, cs2, ss2, cs[n - 1], ss[n - 1]);
    }
}

/// A derivation of `n` statements records at least `n` entries.
proof fn lemma_stmts_len(
    c: Checker,
    s: Scope,
    body: Seq<Stmt>,
    n: int,
    ds: Seq<Deriv>,
    cs: Seq<Checker>,
    ss: Seq<Scope>,
    ps: Seq<Seq<RType>>,
    c2: Checker,
    s2: Scope,
)
    requires
        0 <= n,
        stmts_rel(c, s, body, n, ds, cs, ss, ps, c2, s2),
    ensures
        n <= body.len(),
{
}

/// `stmts_rel` over `n` statements reads only the first `n` entries.
proof fn lemma_stmts_prefix(
    c: Checker,
    s: Scope,
    body: Seq<Stmt>,
    n: int,
    ds: Seq<Deriv>,
    cs: Seq<Checker>,
    ss: Seq<Scope>,
    ps: Seq<Seq<RType>>,
    ds2: Seq<Deriv>,
    cs2: Seq<Checker>,
    ss2: Seq<Scope>,
    ps2: Seq<Seq<RType>>,
    c2: Checker,
    s2: Scope,
)
    requires
        0 <= n,
        n <= ds.len(),
        n <= cs.len(),
        n <= ss.len(),
        n <= ps.len(),
        n <= ds2.len(),
        n <= cs2.len(),
        n <= ss2.len(),
        n <= ps2.len(),
        forall|i: int| 0 <= i < n ==> ds[i] == ds2[i] && cs[i] == cs2[i] && ss[i] == ss2[i] && ps[i] == ps2[i],
        stmts_rel(c, s, body, n, ds, cs, ss, ps, c2, s2),
    ensures
        stmts_rel(c, s, body, n, ds2, cs2, ss2, ps2, c2, s2),
        flatten(ps, n) == flatten(ps2, n),
    decreases n,
{
    if n > 0 {
        lemma_stmts_prefix(c, s, body, n - 1, ds, cs, ss, ps, ds2, cs2, ss2, ps2, cs[n - 1], ss[n - 1]);
    }
}

impl Checker {
    /// What the stubs and the file know of an unbound `name`.
    fn name_facts(&self, name: &str) -> (r: NameFacts)
        ensures
            facts_for(*self, name@, r),
    {
        let dataset = match find_entry(&self.stubs.datasets, name) {
            Some(i) => {
                proof {
                    crate::scope::lemma_assoc_first(self.stubs.datasets@, i as int, name@, 0);
                }
                Some(copy_type(&self.stubs.datasets[i].1))
            },
            None => {
                proof {
                    crate::scope::lemma_assoc_absent(self.stubs.datasets@, name@, 0);
                }
                None
            },
        };
        let stub_function = match find_entry(&self.stubs.functions, name) {
            Some(i) => {
                proof {
                    crate::scope::lemma_assoc_first(self.stubs.functions@, i as int, name@, 0);
                }
                true
            },
            None => {
                proof {
                    crate::scope::lemma_assoc_absent(self.stubs.functions@, name@, 0);
                }
                false
            },
        };
        NameFacts {
            ambient: names_contain(&self.stubs.globals, name),
            external: names_contain(&self.stubs.external, name),
            dataset,
            function: stub_function || crate::checker::table_defines(&self.fn_table, name),
            project_variable: names_contain(&self.stubs.known_vars, name),
        }
    }

    /// Infer the type of an expression, report its findings in evaluation
    /// order, and apply its effects on the scope (see `infer_rel`).
    pub fn infer(&mut self, e: &Expr, scope: &mut Scope) -> (r: RType)
        ensures
            exists|d: Deriv| infer_rel(*old(self), *old(scope), *e, d, r, *final(self), *final(scope)),
            same_state(*old(self), *final(self)),
        decreases e, 2nat,
    {
        let ghost c0 = *self;
        let ghost s0 = *scope;
        match e {
            Expr::Logical(..) | Expr::Integer(..) | Expr::Double(..) | Expr::String(..) | Expr::Null(..) | Expr::Na(..) => {
                match infer_literal(e) {
                    Some(t) => {
                        assert(infer_rel(c0, s0, *e, Deriv::Leaf, t, *self, *scope));
                        t
                    },
                    None => RType::unknown(),
                }
            },
            Expr::Unknown(..) | Expr::Missing(..) => {
                let t = RType::unknown();
                assert(infer_rel(c0, s0, *e, Deriv::Leaf, t, *self, *scope));
                t
            },
            Expr::Function { .. } => {
                let t = RType::scalar(Mode::Function);
                assert(infer_rel(c0, s0, *e, Deriv::Leaf, t, *self, *scope));
                t
            },
            Expr::Ident { name, span } => {
                match scope.get(name.as_str()) {
                    Some(t) => {
                        let r = copy_type(t);
                        assert(infer_rel(c0, s0, *e, Deriv::Leaf, r, *self, *scope));
                        r
                    },
                    None => {
                        let facts = self.name_facts(name.as_str());
                        let ghost f = facts;
                        let dm = scope.data_mask_unknown;
                        let r = self.infer_unbound_name(name.as_str(), facts, dm, *span);
                        let ghost d = Deriv::Node {
                            ds: Seq::empty(),
                            ts: Seq::empty(),
                            cs: Seq::empty(),
                            ss: Seq::empty(),
                            ps: Seq::empty(),
                            nar: None,
                            names: Seq::empty(),
                            facts: Some(f),
                            bind: None,
                            s3: None,
                        };
                        assert(infer_rel(c0, s0, *e, d, r, *self, *scope));
                        r
                    },
                }
            },
            Expr::UnaryOp { .. } => self.infer_unary_expr(e, scope),
            Expr::BinOp { .. } => self.infer_binop_expr(e, scope),
            Expr::Index { .. } => self.infer_index_expr(e, scope),
            Expr::Block { .. } => self.infer_block_expr(e, scope),
            Expr::If { .. } => self.infer_if_expr(e, scope),
            Expr::Call { .. } => self.infer_call(e, scope),
        }
    }

    /// Infer an operator expression (see `infer_rel`).
    fn infer_binop_expr(&mut self, e: &Expr, scope: &mut Scope) -> (r: RType)
        requires
            *e is BinOp,
        ensures
            exists|d: Deriv| infer_rel(*old(self), *old(scope), *e, d, r, *final(self), *final(scope)),
            same_state(*old(self), *final(self)),
        decreases e, 1nat,
    {
        let ghost c0 = *self;
        let ghost s0 = *scope;
        match e {
            Expr::BinOp { op, lhs, rhs, span } => {
                if *op == BinOpKind::Assign || *op == BinOpKind::SuperAssign {
                    let rt = self.infer(rhs, scope);
                    let ghost d0 = choose|d: Deriv| infer_rel(c0, s0, **rhs, d, rt, *self, *scope);
                    let ghost c1 = *self;
                    let ghost s1 = *scope;
                    let stored = copy_type(&rt);
                    let ghost gs = stored;
                    self.assign_target(lhs, stored, scope);
                    let ghost d1 = choose|d: Deriv|
                        assign_rel(c1, s1, **lhs, gs, d, *self, *scope) && ((**lhs is Ident || **lhs is Index) ==> parts(d).1[0] == gs);
                    proof {
                        lemma_assign_value(c1, s1, **lhs, gs, rt, d1, *self, *scope);
                    }
                    assert(infer_rel(c0, s0, *e, node(seq![d0, d1], seq![rt], seq![c1], seq![s1]), rt, *self, *scope));
                    return rt;
                }
                if *op == BinOpKind::PipeForward || *op == BinOpKind::PipeNative || *op == BinOpKind::PipeTee || *op
                    == BinOpKind::PipeAssign {
                    let lt = self.infer(lhs, scope);
                    let ghost d0 = choose|d: Deriv| infer_rel(c0, s0, **lhs, d, lt, *self, *scope);
                    let r = RType::unknown();
                    assert(infer_rel(c0, s0, *e, node(seq![d0], seq![lt], Seq::empty(), Seq::empty()), r, *self, *scope));
                    return r;
                }
                if *op == BinOpKind::Colon {
                    if let Some(t) = colon_literal_type(lhs, rhs) {
                        assert(infer_rel(c0, s0, *e, Deriv::Leaf, t, *self, *scope));
                        return t;
                    }
                }
                if *op == BinOpKind::AndAnd || *op == BinOpKind::OrOr {
                    return self.infer_short_circuit_binop(e, scope);
                }
                let known = known_null_arithmetic_operand(lhs, scope) || known_null_arithmetic_operand(rhs, scope);
                self.check_na_comparison(*op, lhs, rhs, *span);
                let ghost c1 = *self;
                let lt = self.infer(lhs, scope);
                let ghost d0 = choose|d: Deriv| infer_rel(c1, s0, **lhs, d, lt, *self, *scope);
                let ghost c2 = *self;
                let ghost s1 = *scope;
                let rt = self.infer(rhs, scope);
                let ghost d1 = choose|d: Deriv| infer_rel(c2, s1, **rhs, d, rt, *self, *scope);
                let ghost c3 = *self;
                let ghost s2 = *scope;
                let ghost glt = lt;
                let ghost grt = rt;
                let s3 = self.try_s3_binop_dispatch(*op, &lt, &rt);
                let ghost gs3 = s3;
                proof {
                    let w = choose|w: S3Witness| s3_binop(c3.stubs.s3_methods@, *op, lt, rt, w, gs3);
                    assert(s3_binop(c0.stubs.s3_methods@, *op, lt, rt, w, gs3));
                }
                let r = self.infer_binop(*op, lt, rt, *span, known, s3);
                proof {
                    let d = node_s3(seq![d0, d1], seq![glt, grt], seq![c1, c2, c3], seq![s1, s2], gs3);
                    assert(!(*op == BinOpKind::Colon && colon_literals(**lhs, **rhs)));
                    assert(reports_added(c0, c1, na_reports(*op, **lhs, **rhs, *span)));
                    assert(infer_rel(c1, s0, **lhs, d0, glt, c2, s1));
                    assert(infer_rel(c2, s1, **rhs, d1, grt, c3, s2));
                    assert(exists|w: S3Witness| s3_binop(c0.stubs.s3_methods@, *op, glt, grt, w, gs3));
                    assert(binop_result(*op, glt, grt, known, gs3, r));
                    assert(reports_added(c3, *self, binop_reports(*op, glt, grt, *span, known, gs3)));
                }
                assert(infer_rel(
                    c0,
                    s0,
                    *e,
                    node_s3(seq![d0, d1], seq![glt, grt], seq![c1, c2, c3], seq![s1, s2], gs3),
                    r,
                    *self,
                    *scope,
                ));
                r
            },
            _ => RType::unknown(),
        }
    }

    /// Infer a unary operator expression (see `infer_rel`).
    fn infer_unary_expr(&mut self, e: &Expr, scope: &mut Scope) -> (r: RType)
        requires
            *e is UnaryOp,
        ensures
            exists|d: Deriv| infer_rel(*old(self), *old(scope), *e, d, r, *final(self), *final(scope)),
            same_state(*old(self), *final(self)),
        decreases e, 1nat,
    {
        let ghost c0 = *self;
        let ghost s0 = *scope;
        match e {
            Expr::UnaryOp { op, expr, span } => {
                let t = self.infer(expr, scope);
                let ghost d0 = choose|d: Deriv| infer_rel(c0, s0, **expr, d, t, *self, *scope);
                let ghost c1 = *self;
                let ghost s1 = *scope;
                let ghost gt = t;
                let s3 = self.try_s3_unary_dispatch(*op, &t);
                let ghost gs3 = s3;
                proof {
                    let w = choose|w: S3Witness| s3_unary(c1.stubs.s3_methods@, *op, gt, w, gs3);
                    assert(s3_unary(c0.stubs.s3_methods@, *op, gt, w, gs3));
                }
                let r = self.infer_unary(*op, t, *span, s3);
                assert(infer_rel(c0, s0, *e, node_s3(seq![d0], seq![gt], seq![c1], seq![s1], gs3), r, *self, *scope));
                r
            },
            _ => RType::unknown(),
        }
    }

    /// Infer `lhs && rhs` or `lhs || rhs` (see `infer_rel`).
    fn infer_short_circuit_binop(&mut self, e: &Expr, scope: &mut Scope) -> (r: RType)
        requires
            *e matches Expr::BinOp { op, .. } && (op == BinOpKind::AndAnd || op == BinOpKind::OrOr),
        ensures
            exists|d: Deriv| infer_rel(*old(self), *old(scope), *e, d, r, *final(self), *final(scope)),
            same_state(*old(self), *final(self)),
        decreases e, 0nat,
    {
        let ghost c0 = *self;
        let ghost s0 = *scope;
        match e {
            Expr::BinOp { op, lhs, rhs, span } => {
                let lt = self.infer(lhs, scope);
                let ghost d0 = choose|d: Deriv| infer_rel(c0, s0, **lhs, d, lt, *self, *scope);
                let ghost c1 = *self;
                let ghost s1 = *scope;
                let nar = self.extract_type_narrowing(lhs, scope, &self.stubs.predicates);
                let (then_scope, else_scope, names) = apply_narrowing(scope, &nar);
                let ghost t0 = then_scope;
                let ghost e0 = else_scope;
                let guard = self.short_circuit_parameter_vector(*op, lhs, rhs, scope);
                let mut rhs_scope = if *op == BinOpKind::AndAnd {
                    then_scope
                } else {
                    else_scope
                };
                let ghost r0 = rhs_scope;
                let rt = self.infer(rhs, &mut rhs_scope);
                let ghost d1 = choose|d: Deriv| infer_rel(c1, r0, **rhs, d, rt, *self, rhs_scope);
                let ghost c2 = *self;
                merge_condition_assignments(scope, &rhs_scope, rhs);
                let known = known_null_arithmetic_operand(lhs, scope) || known_null_arithmetic_operand(rhs, scope);
                let before = self.diagnostics.len();
                let ghost glt = lt;
                let ghost grt = rt;
                let r = self.infer_binop(*op, lt, rt, *span, known, None);
                let ghost c3 = *self;
                let ghost added = binop_reports(*op, glt, grt, *span, known, None);
                let found = codes_since(&self.diagnostics, before, "RY032");
                proof {
                    reveal_strlit("RY032");
                    lemma_codes_since(c2.diagnostics@, c3.diagnostics@, if c2.discarding { seq![] } else { added }, "RY032"@);
                }
                if guard && !found {
                    let mut message = String::from_str("`");
                    message.append(op_symbol(*op));
                    message.append(
                        "` operand depends on a parameter whose length is not known to be 1; R errors at runtime for vector operands",
                    );
                    self.emit(Severity::Warning, *span, "RY032", message);
                } else {
                    proof {
                        assert(diag_views(self.diagnostics@) =~= diag_views(c3.diagnostics@) + seq![]);
                    }
                }
                let ghost d = Deriv::Node {
                    ds: seq![d0, d1],
                    ts: seq![glt, grt],
                    cs: seq![c1, c2, c3],
                    ss: seq![s1, t0, e0, rhs_scope],
                    ps: Seq::empty(),
                    nar: Some(nar),
                    names: names@,
                    facts: None,
                    bind: None,
                    s3: None,
                };
                assert(infer_rel(c0, s0, *e, d, r, *self, *scope));
                r
            },
            _ => RType::unknown(),
        }
    }

    /// Infer a subscript (see `infer_rel`).
    fn infer_index_expr(&mut self, e: &Expr, scope: &mut Scope) -> (r: RType)
        requires
            *e is Index,
        ensures
            exists|d: Deriv| infer_rel(*old(self), *old(scope), *e, d, r, *final(self), *final(scope)),
            same_state(*old(self), *final(self)),
        decreases e, 1nat,
    {
        let ghost c0 = *self;
        let ghost s0 = *scope;
        match e {
            Expr::Index { base, kind, args, span } => {
                let bt = self.infer(base, scope);
                let ghost d0 = choose|d: Deriv| infer_rel(c0, s0, **base, d, bt, *self, *scope);
                let ghost c1 = *self;
                let ghost s1 = *scope;
                let dnr = match &**base {
                    Expr::Ident { name, .. } => scope.is_default_parameter(name.as_str()),
                    _ => false,
                };
                let infers = *kind == IndexKind::Single || *kind == IndexKind::Double;
                let types = if infers {
                    self.infer_arg_list(args, scope)
                } else {
                    unknown_types(args.len())
                };
                let ghost dargs = if infers {
                    choose|d: Deriv| args_done(c1, s1, args@, d, types@, *self, *scope)
                } else {
                    node(Seq::empty(), types@, Seq::empty(), Seq::empty())
                };
                let ghost c2 = *self;
                let ghost s2 = *scope;
                let ghost gbt = bt;
                let r = self.infer_index(bt, *kind, args, *span, dnr, scope, &types);
                assert(infer_rel(c0, s0, *e, node(seq![d0, dargs], seq![gbt], seq![c1, c2], seq![s1, s2]), r, *self, *scope));
                r
            },
            _ => RType::unknown(),
        }
    }

    /// Infer a braced block: its statements, then the value of the last.
    fn infer_block_expr(&mut self, e: &Expr, scope: &mut Scope) -> (r: RType)
        requires
            *e is Block,
        ensures
            exists|d: Deriv| infer_rel(*old(self), *old(scope), *e, d, r, *final(self), *final(scope)),
            same_state(*old(self), *final(self)),
        decreases e, 1nat,
    {
        let ghost c0 = *self;
        let ghost s0 = *scope;
        match e {
            Expr::Block { body, .. } => {
                if body.len() == 0 {
                    let t = RType::new(Mode::Null, Length::Zero);
                    assert(infer_rel(c0, s0, *e, Deriv::Leaf, t, *self, *scope));
                    return t;
                }
                let mut scratch: Vec<RType> = Vec::new();
                let n = body.len() - 1;
                self.walk_stmts(body, n, scope, &mut scratch);
                let ghost db = choose|d: Deriv|
                    stmts_done(c0, s0, body@, n as int, d, *self, *scope) && scratch@ == Seq::<RType>::empty() + flatten(
                        pushes(d),
                        n as int,
                    );
                let ghost c1 = *self;
                let ghost s1 = *scope;
                let r = self.infer_stmt_value(&body[n], scope);
                let ghost dv = choose|d: Deriv| value_rel(c1, s1, body@[n as int], d, r, *self, *scope);
                assert(infer_rel(c0, s0, *e, node(seq![db, dv], Seq::empty(), seq![c1], seq![s1]), r, *self, *scope));
                r
            },
            _ => RType::unknown(),
        }
    }

    /// Infer an `if` expression: the condition, then each branch in its narrowed scope.
    fn infer_if_expr(&mut self, e: &Expr, scope: &mut Scope) -> (r: RType)
        requires
            *e is If,
        ensures
            exists|d: Deriv| infer_rel(*old(self), *old(scope), *e, d, r, *final(self), *final(scope)),
            same_state(*old(self), *final(self)),
        decreases e, 0nat,
    {
        let ghost c0 = *self;
        let ghost s0 = *scope;
        match e {
            Expr::If { cond, then, else_, .. } => {
                let ct = self.infer(cond, scope);
                let ghost d0 = choose|d: Deriv| infer_rel(c0, s0, **cond, d, ct, *self, *scope);
                let ghost c1 = *self;
                let ghost s1 = *scope;
                let nar = self.extract_type_narrowing(cond, scope, &self.stubs.predicates);
                let (mut then_scope, mut else_scope, names) = apply_narrowing(scope, &nar);
                let ghost t0 = then_scope;
                let ghost e0 = else_scope;
                let tt = self.infer(then, &mut then_scope);
                let ghost d1 = choose|d: Deriv| infer_rel(c1, t0, **then, d, tt, *self, then_scope);
                let ghost c2 = *self;
                let et = match else_ {
                    Some(x) => self.infer(x, &mut else_scope),
                    None => RType::new(Mode::Null, Length::Zero),
                };
                let ghost d2 = match else_ {
                    Some(x) => choose|d: Deriv| infer_rel(c2, e0, **x, d, et, *self, else_scope),
                    None => Deriv::Leaf,
                };
                let ghost gtt = tt;
                let ghost get = et;
                let r = tt.join(et);
                let ghost d = Deriv::Node {
                    ds: seq![d0, d1, d2],
                    ts: seq![ct, gtt, get],
                    cs: seq![c1, c2],
                    ss: seq![s1, t0, e0, then_scope, else_scope],
                    ps: Seq::empty(),
                    nar: Some(nar),
                    names: names@,
                    facts: None,
                    bind: None,
                    s3: None,
                };
                assert(infer_rel(c0, s0, *e, d, r, *self, *scope));
                r
            },
            _ => RType::unknown(),
        }
    }

    /// Infer each argument's value in order.
    fn infer_arg_list(&mut self, args: &Vec<Arg>, scope: &mut Scope) -> (r: Vec<RType>)
        ensures
            r@.len() == args@.len(),
            exists|d: Deriv| args_done(*old(self), *old(scope), args@, d, r@, *final(self), *final(scope)),
            same_state(*old(self), *final(self)),
        decreases args, 0nat,
    {
        let ghost c0 = *self;
        let ghost s0 = *scope;
        let mut out: Vec<RType> = Vec::new();
        let ghost mut ds: Seq<Deriv> = Seq::empty();
        let ghost mut cs: Seq<Checker> = Seq::empty();
        let ghost mut ss: Seq<Scope> = Seq::empty();
        let mut i: usize = 0;
        while i < args.len()
            invariant
                i <= args@.len(),
                out@.len() == i,
                ds.len() == i,
                cs.len() == i,
                ss.len() == i,
                args_rel(c0, s0, args@, i as int, ds, out@, cs, ss, *self, *scope),
                same_state(c0, *self),
            decreases args.len() - i,
        {
            let ghost ci = *self;
            let ghost si = *scope;
            proof {
                assert(decreases_to!(*args => args@[i as int].value));
            }
            let t = self.infer(&args[i].value, scope);
            let ghost di = choose|d: Deriv| infer_rel(ci, si, args@[i as int].value, d, t, *self, *scope);
            proof {
                let nds = ds.push(di);
                let ncs = cs.push(ci);
                let nss = ss.push(si);
                let nts = out@.push(t);
                lemma_args_prefix(c0, s0, args@, i as int, ds, out@, cs, ss, nds, nts, ncs, nss, ci, si);
                ds = nds;
                cs = ncs;
                ss = nss;
            }
            out.push(t);
            i = i + 1;
        }
        assert(args_done(c0, s0, args@, node(ds, out@, cs, ss), out@, *self, *scope));
        out
    }
}

/// `n` opaque types.
fn unknown_types(n: usize) -> (r: Vec<RType>)
    ensures
        r@.len() == n,
        forall|i: int| 0 <= i < n ==> is_unknown_type(#[trigger] r@[i]),
{
    let mut out: Vec<RType> = Vec::new();
    let mut i: usize = 0;
    while i < n
        invariant
            i <= n,
            out@.len() == i,
            forall|k: int| 0 <= k < i ==> is_unknown_type(#[trigger] out@[k]),
        decreases n - i,
    {
        out.push(RType::unknown());
        i = i + 1;
    }
    out
}

/// A walk with a known derivation and known return types is derivable.
proof fn lemma_walk_witness(
    c: Checker,
    s: Scope,
    st: Stmt,
    d: Deriv,
    c2: Checker,
    s2: Scope,
    pushed: Seq<RType>,
    before: Seq<RType>,
    after: Seq<RType>,
)
    requires
        walk_rel(c, s, st, d, c2, s2, pushed),
        after == before + pushed,
    ensures
        exists|dp: (Deriv, Seq<RType>)| walk_rel(c, s, st, dp.0, c2, s2, dp.1) && after == before + dp.1,
{
    let dp = (d, pushed);
    assert(walk_rel(c, s, st, dp.0, c2, s2, dp.1));
}

/// An assignment relation holds for any value the stored copy equals.
proof fn lemma_assign_value(c: Checker, s: Scope, target: Expr, stored: RType, v: RType, d: Deriv, c2: Checker, s2: Scope)
    requires
        assign_rel(c, s, target, stored, d, c2, s2),
        ty_eq(stored, v),
        (target is Ident || target is Index) ==> parts(d).1[0] == stored,
    ensures
        assign_rel(c, s, target, v, d, c2, s2),
{
}


impl Checker {
    /// Assign a value of type `v` to `target` (see `assign_rel`).
    pub fn assign_target(&mut self, target: &Expr, v: RType, scope: &mut Scope)
        ensures
            exists|d: Deriv|
                assign_rel(*old(self), *old(scope), *target, v, d, *final(self), *final(scope)) && ((*target is Ident
                    || *target is Index) ==> parts(d).1[0] == v),
            same_state(*old(self), *final(self)),
        decreases target, 3nat,
    {
        let ghost c0 = *self;
        let ghost s0 = *scope;
        let ghost gv = v;
        proof {
            crate::types::lemma_ty_eq_refl(v);
        }
        match target {
            Expr::Ident { name, .. } => {
                scope.insert(name.as_str(), v);
                let ghost d = node(Seq::empty(), seq![gv], Seq::empty(), Seq::empty());
                assert(assign_rel(c0, s0, *target, gv, d, *self, *scope));
            },
            Expr::Index { base, kind, args, span } => {
                let outcome = self.assign_index_target(base, *kind, args, v, *span, scope);
                let ghost c1 = *self;
                let ghost s1 = *scope;
                match outcome {
                    IndexWrite::Written => {
                        let ghost d = node(Seq::empty(), seq![gv], seq![c1], seq![s1]);
                        assert(assign_rel(c0, s0, *target, gv, d, *self, *scope));
                    },
                    IndexWrite::UnboundBase => {
                        let t = self.infer(base, scope);
                        let ghost d0 = choose|d: Deriv| infer_rel(c1, s1, **base, d, t, *self, *scope);
                        let ghost d = node(seq![d0], seq![gv, t], seq![c1], seq![s1]);
                        assert(assign_rel(c0, s0, *target, gv, d, *self, *scope));
                    },
                    IndexWrite::Unmodelled => {
                        let t = self.infer(target, scope);
                        let ghost d0 = choose|d: Deriv| infer_rel(c1, s1, *target, d, t, *self, *scope);
                        let ghost d = node(seq![d0], seq![gv, t], seq![c1], seq![s1]);
                        assert(assign_rel(c0, s0, *target, gv, d, *self, *scope));
                    },
                }
            },
            _ => {
                let t = self.infer(target, scope);
                let ghost d0 = choose|d: Deriv| infer_rel(c0, s0, *target, d, t, *self, *scope);
                let ghost d = node(seq![d0], seq![t], Seq::empty(), Seq::empty());
                assert(assign_rel(c0, s0, *target, gv, d, *self, *scope));
            },
        }
    }

    /// Infer a call (see `call_rel`): a function literal called in place,
    /// a head that names no function, or a named call.
    pub fn infer_call(&mut self, e: &Expr, scope: &mut Scope) -> (r: RType)
        requires
            *e is Call,
        ensures
            exists|d: Deriv| call_rel(*old(self), *old(scope), *e, d, r, *final(self), *final(scope)),
            exists|d: Deriv| infer_rel(*old(self), *old(scope), *e, d, r, *final(self), *final(scope)),
            same_state(*old(self), *final(self)),
        decreases e, 1nat,
    {
        let ghost c0 = *self;
        let ghost s0 = *scope;
        let r = match e {
            Expr::Call { func, .. } => {
                if let Expr::Function { .. } = &**func {
                    self.infer_function_literal_call(e, scope)
                } else if callee_name(func).is_none() {
                    self.infer_opaque_callee(e, scope)
                } else {
                    self.infer_named_call(e, scope)
                }
            },
            _ => RType::unknown(),
        };
        let ghost d = choose|d: Deriv| call_rel(c0, s0, *e, d, r, *self, *scope);
        assert(infer_rel(c0, s0, *e, d, r, *self, *scope));
        r
    }

    /// A function literal called in place: its arguments are inferred and
    /// the result is opaque.
    fn infer_function_literal_call(&mut self, e: &Expr, scope: &mut Scope) -> (r: RType)
        requires
            *e matches Expr::Call { func, .. } && *func is Function,
        ensures
            exists|d: Deriv| call_rel(*old(self), *old(scope), *e, d, r, *final(self), *final(scope)),
            same_state(*old(self), *final(self)),
        decreases e, 0nat,
    {
        let ghost c0 = *self;
        let ghost s0 = *scope;
        match e {
            Expr::Call { func, args, span } => {
                let types = self.infer_arg_list(args, scope);
                let ghost da = choose|d: Deriv| args_done(c0, s0, args@, d, types@, *self, *scope);
                let r = RType::unknown();
                let ghost d = node(seq![da], Seq::empty(), Seq::empty(), Seq::empty());
                assert(call_rel(c0, s0, *e, d, r, *self, *scope));
                r
            },
            _ => RType::unknown(),
        }
    }

    /// A callee that names no function: a literal is reported (RY070),
    /// another head is inferred; then the arguments, and the result is
    /// opaque.
    fn infer_opaque_callee(&mut self, e: &Expr, scope: &mut Scope) -> (r: RType)
        requires
            *e matches Expr::Call { func, .. } && !(*func is Function) && callee_spec(*func) is None,
        ensures
            exists|d: Deriv| call_rel(*old(self), *old(scope), *e, d, r, *final(self), *final(scope)),
            same_state(*old(self), *final(self)),
        decreases e, 0nat,
    {
        let ghost c0 = *self;
        let ghost s0 = *scope;
        match e {
            Expr::Call { func, args, span } => {
                let ghost d0;
                let ghost ft;
                match literal_callee(func) {
                    Some(m) => {
                        let placeholder = RType::unknown();
                        let mut message = String::from_str("cannot call a value of mode `");
                        message.append(mode_name(m));
                        message.append("`");
                        self.emit(Severity::Error, *span, "RY070", message);
                        proof {
                            d0 = Deriv::Leaf;
                            ft = placeholder;
                        }
                    },
                    None => {
                        let t = self.infer(func, scope);
                        proof {
                            d0 = choose|d: Deriv| infer_rel(c0, s0, **func, d, t, *self, *scope);
                            ft = t;
                        }
                    },
                }
                let ghost c1 = *self;
                let ghost s1 = *scope;
                let types = self.infer_arg_list(args, scope);
                let ghost da = choose|d: Deriv| args_done(c1, s1, args@, d, types@, *self, *scope);
                let r = RType::unknown();
                let ghost d = node(seq![d0, da], seq![ft], seq![c1], seq![s1]);
                assert(call_rel(c0, s0, *e, d, r, *self, *scope));
                r
            },
            _ => RType::unknown(),
        }
    }

    /// A call of a named function (see `call_rel`).
    #[verifier::spinoff_prover]
    #[verifier::rlimit(40)]
    fn infer_named_call(&mut self, e: &Expr, scope: &mut Scope) -> (r: RType)
        requires
            *e matches Expr::Call { func, .. } && !(*func is Function) && callee_spec(*func) is Some,
        ensures
            exists|d: Deriv| call_rel(*old(self), *old(scope), *e, d, r, *final(self), *final(scope)),
            same_state(*old(self), *final(self)),
        decreases e, 0nat,
    {
        let ghost c0 = *self;
        let ghost s0 = *scope;
        match e {
            Expr::Call { func, args, span } => {
                let name = match callee_name(func) {
                    Some(n) => n,
                    None => {
                        return RType::unknown();
                    },
                };
                let semantic: String = match scope.function_alias(name.as_str()) {
                    Some(t) => t.to_string(),
                    None => name.as_str().to_string(),
                };
                let lookup: String = if is_user_infix_name(semantic.as_str()) {
                    semantic.as_str().to_string()
                } else {
                    bare_name(semantic.as_str())
                };
                assert(lookup@ == call_lookup(s0, name@));
                let qual = bare_name(name.as_str()).as_str().unicode_len() < name.as_str().unicode_len();
                let lexical = !qual && scope.is_lexical_function(lookup.as_str());
                let sig_idx = entry_index(&self.stubs.functions, lookup.as_str());
                let uf_idx = if lexical {
                    None
                } else {
                    entry_index(&self.fn_table, lookup.as_str())
                };
                let ghost sig = sig_at(c0.stubs.functions@, sig_idx);
                let ghost uf = fn_at(c0.fn_table@, uf_idx);
                assert(sig == assoc(c0.stubs.functions@, lookup@, 0));
                assert(uf == (if lexical { None } else { assoc(c0.fn_table@, lookup@, 0) }));
                self.check_comparison_inside_aggregate(lookup.as_str(), args.as_slice());
                let ghost c1 = *self;
                self.check_comparison_inside_math_fn(lookup.as_str(), args.as_slice());
                let ghost c2 = *self;
                proof {
                    reveal_strlit("hasArg");
                }
                if crate::text::str_eq(lookup.as_str(), "hasArg") {
                    let r = self.check_has_arg(args.as_slice(), *span);
                    let ghost d = Deriv::Node {
                        ds: Seq::empty(),
                        ts: Seq::empty(),
                        cs: seq![c1, c2],
                        ss: Seq::empty(),
                        ps: Seq::empty(),
                        nar: None,
                        names: Seq::empty(),
                        facts: None,
                        bind: None,
                        s3: None,
                    };
                    assert(call_rel(c0, s0, *e, d, r, *self, *scope));
                    return r;
                }
                self.check_printf_format_arity(lookup.as_str(), args.as_slice());
                let ghost c3 = *self;
                proof {
                    reveal_strlit("switch");
                }
                if crate::text::str_eq(semantic.as_str(), "switch") {
                    let types = self.infer_arg_list(args, scope);
                    let ghost da = choose|d: Deriv| args_done(c3, s0, args@, d, types@, *self, *scope);
                    let r = join_alternatives(&types);
                    let ghost d = Deriv::Node {
                        ds: seq![da],
                        ts: Seq::empty(),
                        cs: seq![c1, c2, c3],
                        ss: Seq::empty(),
                        ps: Seq::empty(),
                        nar: None,
                        names: Seq::empty(),
                        facts: None,
                        bind: None,
                        s3: None,
                    };
                    assert(call_rel(c0, s0, *e, d, r, *self, *scope));
                    return r;
                }
                proof {
                    reveal_strlit("assign");
                }
                if crate::text::str_eq(semantic.as_str(), "assign") && args.len() == 2 && !passes_namespace(args) {
                    proof {
                        crate::ast::lemma_call_arg_decreases(*e, 0);
                        crate::ast::lemma_call_arg_decreases(*e, 1);
                    }
                    let t0 = self.infer(&args[0].value, scope);
                    let ghost d0 = choose|d: Deriv| infer_rel(c3, s0, args@[0].value, d, t0, *self, *scope);
                    let ghost c4 = *self;
                    let ghost s1 = *scope;
                    let value = self.infer(&args[1].value, scope);
                    let ghost d1 = choose|d: Deriv| infer_rel(c4, s1, args@[1].value, d, value, *self, *scope);
                    let ghost s2 = *scope;
                    let ghost stored = value;
                    match &args[0].value {
                        Expr::String(n, _) => {
                            let copy = copy_type(&value);
                            proof {
                                stored = copy;
                            }
                            scope.insert(n.as_str(), copy);
                        },
                        _ => {},
                    }
                    let ghost d = Deriv::Node {
                        ds: seq![d0, d1],
                        ts: seq![t0, value, stored],
                        cs: seq![c1, c2, c3, c4],
                        ss: seq![s1, s2],
                        ps: Seq::empty(),
                        nar: None,
                        names: Seq::empty(),
                        facts: None,
                        bind: None,
                        s3: None,
                    };
                    assert(call_rel(c0, s0, *e, d, value, *self, *scope));
                    return value;
                }
                let types = self.infer_argument_types(lookup.as_str(), args, scope);
                let ghost da = choose|d: Deriv| arguments_inferred(c3, s0, lookup@, args@, d, types@, *self, *scope);
                let ghost c4 = *self;
                self.check_call_stage(lookup.as_str(), uf_idx, sig_idx, lexical, args, &types, *span);
                let ghost c5 = *self;
                let r = self.call_type(name.as_str(), lookup.as_str(), sig_idx, uf_idx.is_some(), args, &types, *span, scope);
                let ghost d = Deriv::Node {
                    ds: seq![da],
                    ts: Seq::empty(),
                    cs: seq![c1, c2, c3, c4, c5],
                    ss: Seq::empty(),
                    ps: Seq::empty(),
                    nar: None,
                    names: Seq::empty(),
                    facts: None,
                    bind: None,
                    s3: None,
                };
                assert(call_rel(c0, s0, *e, d, r, *self, *scope));
                r
            },
            _ => RType::unknown(),
        }
    }

    /// The argument-inference stage of a call of `lookup_name`: each
    /// argument is inferred in order, except one whose formal the stub
    /// signature of `lookup_name` takes unevaluated, which has the opaque
    /// type (see `arguments_inferred`).
    pub fn infer_argument_types(&mut self, lookup_name: &str, args: &Vec<Arg>, scope: &mut Scope) -> (r: Vec<RType>)
        ensures
            exists|d: Deriv| arguments_inferred(*old(self), *old(scope), lookup_name@, args@, d, r@, *final(self), *final(scope)),
            same_state(*old(self), *final(self)),
        decreases args, 1nat,
    {
        let ghost c0 = *self;
        let ghost s0 = *scope;
        let sig_idx = entry_index(&self.stubs.functions, lookup_name);
        let bind: Option<ArgumentMatch> = match sig_idx {
            Some(k) => Some(match_params(self.stubs.functions[k].1.params.as_slice(), args.as_slice())),
            None => None,
        };
        let types = self.infer_call_arguments(args, sig_idx, &bind, scope);
        let ghost sig = sig_at(c0.stubs.functions@, sig_idx);
        let ghost d0 = choose|d: Deriv| call_args_done(c0, s0, args@, sig, bind, d, types@, *self, *scope);
        let ghost (ds, ts, cs, ss) = parts(d0);
        let ghost d = Deriv::Node {
            ds,
            ts,
            cs,
            ss,
            ps: Seq::empty(),
            nar: None,
            names: Seq::empty(),
            facts: None,
            bind,
            s3: None,
        };
        assert(arguments_inferred(c0, s0, lookup_name@, args@, d, types@, *self, *scope));
        types
    }

    /// Infer a call's arguments in order; one its formal takes unevaluated
    /// is not inferred and has the opaque type (see `call_args_rel`).
    fn infer_call_arguments(
        &mut self,
        args: &Vec<Arg>,
        sig_idx: Option<usize>,
        bind: &Option<ArgumentMatch>,
        scope: &mut Scope,
    ) -> (r: Vec<RType>)
        requires
            sig_idx matches Some(k) ==> k < old(self).stubs.functions@.len(),
        ensures
            exists|d: Deriv|
                call_args_done(
                    *old(self),
                    *old(scope),
                    args@,
                    sig_at(old(self).stubs.functions@, sig_idx),
                    *bind,
                    d,
                    r@,
                    *final(self),
                    *final(scope),
                ),
            same_state(*old(self), *final(self)),
        decreases args, 0nat,
    {
        let ghost c0 = *self;
        let ghost s0 = *scope;
        let ghost sig = sig_at(c0.stubs.functions@, sig_idx);
        let mut out: Vec<RType> = Vec::new();
        let ghost mut ds: Seq<Deriv> = Seq::empty();
        let ghost mut cs: Seq<Checker> = Seq::empty();
        let ghost mut ss: Seq<Scope> = Seq::empty();
        let mut i: usize = 0;
        while i < args.len()
            invariant
                i <= args@.len(),
                out@.len() == i,
                ds.len() == i,
                cs.len() == i,
                ss.len() == i,
                same_state(c0, *self),
                sig_idx matches Some(k) ==> k < self.stubs.functions@.len(),
                sig == sig_at(self.stubs.functions@, sig_idx),
                call_args_rel(c0, s0, args@, i as int, sig, *bind, ds, out@, cs, ss, *self, *scope),
            decreases args.len() - i,
        {
            let ghost ci = *self;
            let ghost si = *scope;
            let is_deferred = match (sig_idx, bind) {
                (Some(k), Some(b)) => match eval_mode_for_arg(&self.stubs.functions[k].1, b, i) {
                    Some(m) => m != EvalMode::Normal,
                    None => false,
                },
                _ => false,
            };
            assert(is_deferred == deferred(sig, *bind, i as int));
            let ghost di;
            let t = if is_deferred {
                proof {
                    di = Deriv::Leaf;
                }
                RType::unknown()
            } else {
                proof {
                    assert(decreases_to!(*args => args@[i as int].value));
                }
                let t = self.infer(&args[i].value, scope);
                proof {
                    di = choose|d: Deriv| infer_rel(ci, si, args@[i as int].value, d, t, *self, *scope);
                }
                t
            };
            proof {
                let nds = ds.push(di);
                let ncs = cs.push(ci);
                let nss = ss.push(si);
                let nts = out@.push(t);
                lemma_call_args_prefix(c0, s0, args@, i as int, sig, *bind, ds, out@, cs, ss, nds, nts, ncs, nss, ci, si);
                ds = nds;
                cs = ncs;
                ss = nss;
            }
            out.push(t);
            i = i + 1;
        }
        assert(call_args_done(c0, s0, args@, sig, *bind, node(ds, out@, cs, ss), out@, *self, *scope));
        out
    }

    /// Check a call's arguments against the callee's formals (see
    /// `arguments_checked`).
    fn check_call_stage(
        &mut self,
        lookup: &str,
        uf_idx: Option<usize>,
        sig_idx: Option<usize>,
        lexical: bool,
        args: &Vec<Arg>,
        types: &Vec<RType>,
        span: Span,
    )
        requires
            uf_idx matches Some(i) ==> i < old(self).fn_table@.len(),
            sig_idx matches Some(k) ==> k < old(self).stubs.functions@.len(),
        ensures
            arguments_checked(
                *old(self),
                *final(self),
                lookup@,
                fn_at(old(self).fn_table@, uf_idx),
                sig_at(old(self).stubs.functions@, sig_idx),
                lexical,
                args@,
                types@,
                span,
            ),
            same_state(*old(self), *final(self)),
    {
        let ghost a = *self;
        let ghost uf = fn_at(a.fn_table@, uf_idx);
        let ghost sig = sig_at(a.stubs.functions@, sig_idx);
        let tag_max = longest_tag(args);
        let fits_user = match uf_idx {
            Some(i) => tag_max <= usize::MAX - longest_user_formal(&self.fn_table[i].1.params),
            None => true,
        };
        let fits_stub = match sig_idx {
            Some(k) => tag_max <= usize::MAX - longest_stub_formal(&self.stubs.functions[k].1.params),
            None => true,
        };
        assert(fits_user == (uf matches Some(f) ==> user_tags_fit(args@, f.params@)));
        assert(fits_stub == (sig matches Some(g) ==> stub_tags_fit(args@, g.params@)));
        if !(fits_user && fits_stub) {
            return;
        }
        let validate = self.validate_user_call_arguments;
        let defined = crate::checker::table_defines(&self.fn_table, lookup);
        let mut table: Vec<(String, UserFn)> = Vec::new();
        std::mem::swap(&mut table, &mut self.fn_table);
        let mut funcs: Vec<(String, FunctionSig)> = Vec::new();
        std::mem::swap(&mut funcs, &mut self.stubs.functions);
        let ghost a1 = *self;
        let mut ran_user = false;
        let mut ran_stub = false;
        let mut expected: Vec<Option<RType>> = Vec::new();
        if validate && uf_idx.is_some() {
            match uf_idx {
                Some(i) => {
                    self.check_user_call_arguments(lookup, &table[i].1, args.as_slice(), span);
                    ran_user = true;
                },
                None => {},
            }
        } else {
            match sig_idx {
                Some(k) => {
                    if !lexical && (if validate { uf_idx.is_none() } else { !defined }) {
                        let n = funcs[k].1.params.len();
                        let mut j: usize = 0;
                        while j < n
                            invariant
                                j <= n,
                                expected@.len() == j,
                                forall|q: int| 0 <= q < j ==> (#[trigger] expected@[q]) is None,
                            decreases n - j,
                        {
                            expected.push(None);
                            j = j + 1;
                        }
                        assert(expected@ =~= no_expectations(sig));
                        self.check_typeshed_call_arguments(lookup, &funcs[k].1, args.as_slice(), types.as_slice(), span, &expected, false);
                        ran_stub = true;
                    }
                },
                None => {},
            }
        }
        let ghost b1 = *self;
        std::mem::swap(&mut table, &mut self.fn_table);
        std::mem::swap(&mut funcs, &mut self.stubs.functions);
        proof {
            assert(self.stubs == a.stubs);
            assert(self.fn_table == a.fn_table);
            if ran_user {
                let f = uf->0;
                let m = choose|m: ArgumentMatch|
                    match_spec(crate::checker::formal_names(f.params@), arg_tags(args@), m) && reports_added(
                        a1,
                        b1,
                        crate::typed_args::user_call_added(a1.source@, lookup@, f, args@, span, m),
                    );
                assert(reports_added(a, *self, crate::typed_args::user_call_added(a.source@, lookup@, f, args@, span, m)));
            } else if ran_stub {
                let g = sig->0;
                let m = choose|m: ArgumentMatch|
                    match_spec(spec_names(g.params@), arg_tags(args@), m) && reports_added(
                        a1,
                        b1,
                        crate::typed_args::typeshed_call_reports(a1.source@, lookup@, g.params@, args@, types@, m, no_expectations(sig), false, span),
                    );
                assert(reports_added(a, *self, crate::typed_args::typeshed_call_reports(a.source@, lookup@, g.params@, args@, types@, m, no_expectations(sig), false, span)));
            } else {
                assert(*self == a);
            }
        }
    }

    /// The lexical-callable stage of a call: a callee the scope binds to a
    /// possible function gives the opaque type; one bound to a value that
    /// is no function, with no stub or file function of that name, is
    /// reported (RY070) and opaque; `None` lets the later stages decide.
    fn infer_lexical_callable_call(
        &mut self,
        name: &str,
        lookup_name: &str,
        sig_idx: Option<usize>,
        span: Span,
        scope: &Scope,
    ) -> (r: Option<RType>)
        requires
            sig_idx matches Some(k) ==> k < old(self).stubs.functions@.len(),
        ensures
            same_state(*old(self), *final(self)),
            if function_callee(*scope, name@, lookup_name@) {
                r is Some && is_unknown_type(r->0) && *final(self) == *old(self)
            } else if value_callee(*scope, name@, lookup_name@) is Some && sig_idx is None && !defines(
                old(self).fn_table@,
                lookup_name@,
            ) {
                r is Some && is_unknown_type(r->0) && reports_added(
                    *old(self),
                    *final(self),
                    seq![(Severity::Error, span, "RY070"@, not_callable_message(name@, value_callee(*scope, name@, lookup_name@)->0))],
                )
            } else {
                r is None && *final(self) == *old(self)
            },
    {
        let qual = bare_name(name).as_str().unicode_len() < name.unicode_len();
        if !qual {
            match scope.get(lookup_name) {
                Some(t) => {
                    if t.mode == Mode::Function || t.mode == Mode::Opaque || t.mode == Mode::Union {
                        return Some(RType::unknown());
                    }
                    if sig_idx.is_none() && !crate::checker::table_defines(&self.fn_table, lookup_name) {
                        let m = t.mode;
                        return Some(self.emit_not_callable(name, m, span));
                    }
                },
                None => {},
            }
        }
        None
    }

    /// The type a call gives, with the RY070 it may report (see
    /// `call_result`).
    fn call_type(
        &mut self,
        name: &str,
        lookup_name: &str,
        sig_idx: Option<usize>,
        user_defined: bool,
        args: &Vec<Arg>,
        types: &Vec<RType>,
        span: Span,
        scope: &Scope,
    ) -> (r: RType)
        requires
            sig_idx matches Some(k) ==> k < old(self).stubs.functions@.len(),
            types@.len() == args@.len(),
        ensures
            call_result(
                *old(self),
                *final(self),
                *scope,
                name@,
                lookup_name@,
                sig_at(old(self).stubs.functions@, sig_idx),
                user_defined,
                args@,
                types@,
                span,
                r,
            ),
            same_state(*old(self), *final(self)),
    {
        match self.infer_lexical_callable_call(name, lookup_name, sig_idx, span, scope) {
            Some(t) => {
                return t;
            },
            None => {},
        }
        match self.infer_atomic_constructor_call(lookup_name, args, types) {
            Some(t) => {
                return t;
            },
            None => {},
        }
        if user_defined {
            return RType::unknown();
        }
        proof {
            reveal_strlit("vector");
            reveal_strlit("rep");
            reveal_strlit("seq");
            reveal_strlit("seq.int");
            assert("vector"@.len() == 6 && "rep"@.len() == 3 && "seq"@.len() == 3 && "seq.int"@.len() == 7);
            assert("rep"@[0] != "seq"@[0]);
        }
        if crate::text::str_eq(lookup_name, "vector") || crate::text::str_eq(lookup_name, "rep") {
            match self.infer_literal_length_call(lookup_name, args, types) {
                Some(t) => {
                    return t;
                },
                None => {
                    return RType::unknown();
                },
            }
        }
        match sig_idx {
            Some(k) => self.apply_sig(&self.stubs.functions[k].1, types, args),
            None => RType::unknown(),
        }
    }
}

/// Whether a finding with `code` was reported at position `before` or
/// later.
fn codes_since(diagnostics: &Vec<crate::checker::Diagnostic>, before: usize, code: &str) -> (r: bool)
    ensures
        r == exists|k: int| before <= k < diagnostics@.len() && (#[trigger] diagnostics@[k]).code@ == code@,
{
    let mut k: usize = before;
    while k < diagnostics.len()
        invariant
            before <= k,
            forall|j: int| before <= j < k && j < diagnostics@.len() ==> (#[trigger] diagnostics@[j]).code@ != code@,
        decreases diagnostics.len() - k,
    {
        if crate::text::str_eq(diagnostics[k].code.as_str(), code) {
            assert(diagnostics@[k as int].code@ == code@);
            return true;
        }
        k = k + 1;
    }
    false
}

/// The findings after `a`'s in `b` are `added`: a code occurs among them
/// exactly when it occurs in `b` from `a`'s end on.
proof fn lemma_codes_since(
    a: Seq<crate::checker::Diagnostic>,
    b: Seq<crate::checker::Diagnostic>,
    added: Seq<(Severity, Span, Seq<char>, Seq<char>)>,
    code: Seq<char>,
)
    requires
        diag_views(b) == diag_views(a) + added,
    ensures
        (exists|k: int| a.len() <= k < b.len() && (#[trigger] b[k]).code@ == code) == has_code(added, code),
{
    assert(diag_views(b).len() == b.len());
    assert(diag_views(a).len() == a.len());
    if exists|k: int| a.len() <= k < b.len() && (#[trigger] b[k]).code@ == code {
        let k = choose|k: int| a.len() <= k < b.len() && (#[trigger] b[k]).code@ == code;
        assert(diag_views(b)[k] == crate::checker::diag_view(b[k]));
        assert(added[k - a.len()] == diag_views(b)[k]);
    }
    if has_code(added, code) {
        let j = choose|j: int| 0 <= j < added.len() && (#[trigger] added[j]).2 == code;
        let k = j + a.len();
        assert(diag_views(b)[k] == added[j]);
        assert(diag_views(b)[k] == crate::checker::diag_view(b[k]));
        assert(b[k].code@ == code);
    }
}

/// The mode of a literal callee (see `literal_callee_mode`).
fn literal_callee(func: &Expr) -> (r: Option<Mode>)
    ensures
        r == literal_callee_mode(*func),
{
    match func {
        Expr::Logical(..) => Some(Mode::Logical),
        Expr::Integer(..) => Some(Mode::Integer),
        Expr::Double(..) => Some(Mode::Double),
        Expr::Null(..) => Some(Mode::Null),
        Expr::Na(t, _) => if t.mode != Mode::Opaque {
            Some(t.mode)
        } else {
            None
        },
        _ => None,
    }
}

/// The join of the alternatives of `switch(...)` (see
/// `alternatives_joined`).
fn join_alternatives(ts: &Vec<RType>) -> (r: RType)
    ensures
        exists|copies: Seq<RType>, accs: Seq<RType>| alternatives_joined(ts@, copies, accs, r),
{
    if ts.len() <= 1 {
        let r = RType::unknown();
        assert(alternatives_joined(ts@, Seq::empty(), Seq::empty(), r));
        return r;
    }
    let mut acc = copy_type(&ts[1]);
    let ghost mut copies: Seq<RType> = seq![acc];
    let ghost mut accs: Seq<RType> = seq![acc];
    let mut i: usize = 2;
    while i < ts.len()
        invariant
            2 <= i <= ts@.len(),
            copies.len() == i - 1,
            accs.len() == i - 1,
            forall|k: int| 0 <= k < copies.len() ==> ty_eq(#[trigger] copies[k], ts@[k + 1]),
            accs[0] == copies[0],
            forall|k: int| 1 <= k < accs.len() ==> join_of(accs[k - 1], copies[k], #[trigger] accs[k]),
            acc == accs.last(),
        decreases ts.len() - i,
    {
        let next = copy_type(&ts[i]);
        let ghost gn = next;
        let ghost before = acc;
        acc = acc.join(next);
        proof {
            copies = copies.push(gn);
            accs = accs.push(acc);
            assert(join_of(accs[i - 2], copies[i - 1], accs[i - 1]));
        }
        i = i + 1;
    }
    assert(alternatives_joined(ts@, copies, accs, acc));
    acc
}

/// Whether an argument passes `envir = asNamespace(...)` (see
/// `registers_namespace`).
fn passes_namespace(args: &Vec<Arg>) -> (r: bool)
    ensures
        r == registers_namespace(args@),
{
    proof {
        reveal_strlit("envir");
        reveal_strlit("asNamespace");
    }
    let mut i: usize = 0;
    while i < args.len()
        invariant
            i <= args@.len(),
            forall|k: int| 0 <= k < i ==> !(arg_named(#[trigger] args@[k], "envir"@) && calls_ident(args@[k].value, "asNamespace"@)),
        decreases args.len() - i,
    {
        let named = match &args[i].name {
            Some(n) => crate::text::str_eq(n.as_str(), "envir"),
            None => false,
        };
        let calls = match &args[i].value {
            Expr::Call { func, .. } => match &**func {
                Expr::Ident { name, .. } => crate::text::str_eq(name.as_str(), "asNamespace"),
                _ => false,
            },
            _ => false,
        };
        if named && calls {
            return true;
        }
        i = i + 1;
    }
    false
}

/// The position of the entry `assoc` finds for `key`.
fn entry_index<V>(entries: &Vec<(String, V)>, key: &str) -> (r: Option<usize>)
    ensures
        match r {
            Some(i) => i < entries@.len() && assoc(entries@, key@, 0) == Some(entries@[i as int].1),
            None => assoc(entries@, key@, 0) is None,
        },
{
    match find_entry(entries, key) {
        Some(i) => {
            proof {
                crate::scope::lemma_assoc_first(entries@, i as int, key@, 0);
            }
            Some(i)
        },
        None => {
            proof {
                crate::scope::lemma_assoc_absent(entries@, key@, 0);
            }
            None
        },
    }
}

/// The length of the longest argument tag.
fn longest_tag(args: &Vec<Arg>) -> (r: usize)
    ensures
        forall|i: int| 0 <= i < args@.len() ==> tag_text(#[trigger] args@[i]).len() <= r,
        r == 0 || exists|i: int| 0 <= i < args@.len() && tag_text(#[trigger] args@[i]).len() == r,
{
    let mut best: usize = 0;
    let mut i: usize = 0;
    while i < args.len()
        invariant
            i <= args@.len(),
            forall|j: int| 0 <= j < i ==> tag_text(#[trigger] args@[j]).len() <= best,
            best == 0 || exists|j: int| 0 <= j < i && tag_text(#[trigger] args@[j]).len() == best,
        decreases args.len() - i,
    {
        let n = match &args[i].name {
            Some(t) => t.as_str().unicode_len(),
            None => 0,
        };
        assert(n == tag_text(args@[i as int]).len());
        if n > best {
            best = n;
        }
        i = i + 1;
    }
    best
}

/// The length of the longest formal name of a stub signature.
fn longest_stub_formal(params: &Vec<ParamSpec>) -> (r: usize)
    ensures
        forall|j: int| 0 <= j < params@.len() ==> (#[trigger] params@[j]).name@.len() <= r,
        r == 0 || exists|j: int| 0 <= j < params@.len() && (#[trigger] params@[j]).name@.len() == r,
{
    let mut best: usize = 0;
    let mut i: usize = 0;
    while i < params.len()
        invariant
            i <= params@.len(),
            forall|j: int| 0 <= j < i ==> (#[trigger] params@[j]).name@.len() <= best,
            best == 0 || exists|j: int| 0 <= j < i && (#[trigger] params@[j]).name@.len() == best,
        decreases params.len() - i,
    {
        let n = params[i].name.as_str().unicode_len();
        if n > best {
            best = n;
        }
        i = i + 1;
    }
    best
}

/// The length of the longest formal name of a file function.
fn longest_user_formal(params: &Vec<UserParam>) -> (r: usize)
    ensures
        forall|j: int| 0 <= j < params@.len() ==> (#[trigger] params@[j]).name@.len() <= r,
        r == 0 || exists|j: int| 0 <= j < params@.len() && (#[trigger] params@[j]).name@.len() == r,
{
    let mut best: usize = 0;
    let mut i: usize = 0;
    while i < params.len()
        invariant
            i <= params@.len(),
            forall|j: int| 0 <= j < i ==> (#[trigger] params@[j]).name@.len() <= best,
            best == 0 || exists|j: int| 0 <= j < i && (#[trigger] params@[j]).name@.len() == best,
        decreases params.len() - i,
    {
        let n = params[i].name.as_str().unicode_len();
        if n > best {
            best = n;
        }
        i = i + 1;
    }
    best
}



/// The element type of a vector of type `t` (see `element_of`).
fn element_type(t: &RType) -> (r: RType)
    ensures
        element_of(*t, r),
{
    match t.mode {
        Mode::Logical | Mode::Integer | Mode::Double | Mode::Complex | Mode::Character | Mode::Raw => RType::scalar(t.mode),
        _ => RType::unknown(),
    }
}

impl Checker {
    /// Walk the first `n` statements of `body` in order, appending the
    /// return types they collect to `collected`.
    pub fn walk_stmts(&mut self, body: &Vec<Stmt>, n: usize, scope: &mut Scope, collected: &mut Vec<RType>)
        requires
            n <= body@.len(),
        ensures
            exists|d: Deriv|
                stmts_done(*old(self), *old(scope), body@, n as int, d, *final(self), *final(scope)) && final(collected)@
                    == old(collected)@ + flatten(pushes(d), n as int),
            same_state(*old(self), *final(self)),
        decreases body, 0nat,
    {
        let ghost c0 = *self;
        let ghost s0 = *scope;
        let ghost r0 = collected@;
        let ghost mut ds: Seq<Deriv> = Seq::empty();
        let ghost mut cs: Seq<Checker> = Seq::empty();
        let ghost mut ss: Seq<Scope> = Seq::empty();
        let ghost mut ps: Seq<Seq<RType>> = Seq::empty();
        let mut i: usize = 0;
        while i < n
            invariant
                i <= n,
                n <= body@.len(),
                ds.len() == i,
                cs.len() == i,
                ss.len() == i,
                ps.len() == i,
                stmts_rel(c0, s0, body@, i as int, ds, cs, ss, ps, *self, *scope),
                collected@ == r0 + flatten(ps, i as int),
                same_state(c0, *self),
            decreases n - i,
        {
            let ghost ci = *self;
            let ghost si = *scope;
            let ghost ri = collected@;
            proof {
                assert(decreases_to!(*body => body@[i as int]));
            }
            self.walk_stmt(&body[i], scope, collected);
            let ghost choice = choose|dp: (Deriv, Seq<RType>)|
                walk_rel(ci, si, body@[i as int], dp.0, *self, *scope, dp.1) && collected@ == ri + dp.1;
            proof {
                let nds = ds.push(choice.0);
                let ncs = cs.push(ci);
                let nss = ss.push(si);
                let nps = ps.push(choice.1);
                lemma_stmts_prefix(c0, s0, body@, i as int, ds, cs, ss, ps, nds, ncs, nss, nps, ci, si);
                assert(flatten(nps, i + 1) == flatten(nps, i as int) + nps[i as int]);
                ds = nds;
                cs = ncs;
                ss = nss;
                ps = nps;
                assert(collected@ =~= r0 + flatten(ps, i + 1));
            }
            i = i + 1;
        }
        let ghost d = Deriv::Node { ds, ts: Seq::empty(), cs, ss, ps, nar: None, names: Seq::empty(), facts: None, bind: None, s3: None };
        assert(stmts_done(c0, s0, body@, n as int, d, *self, *scope));
    }

    /// Walk a function body in a copy of `scope` with each formal bound to
    /// the opaque type (see `body_rel`).
    pub fn walk_function_body(&mut self, params: &Vec<Param>, body: &Vec<Stmt>, scope: &Scope)
        ensures
            exists|d: Deriv| body_rel(*old(self), *scope, params@, body@, d, *final(self)),
            same_state(*old(self), *final(self)),
        decreases body, body@.len() + 1nat,
    {
        let ghost c0 = *self;
        let mut fs = copy_scope(scope);
        let ghost mut steps: Seq<Scope> = seq![fs];
        let ghost mut types: Seq<RType> = Seq::empty();
        let mut k: usize = 0;
        while k < params.len()
            invariant
                k <= params@.len(),
                steps.len() == k + 1,
                types.len() == k,
                scope_eq(*scope, steps[0]),
                steps[k as int] == fs,
                forall|j: int|
                    0 <= j < k ==> is_unknown_type(#[trigger] types[j]) && rebound(steps[j], steps[j + 1], params@[j].name@, types[j]),
            decreases params.len() - k,
        {
            let t = RType::unknown();
            let ghost gt = t;
            let ghost before = fs;
            fs.insert(params[k].name.as_str(), t);
            proof {
                steps = steps.push(fs);
                types = types.push(gt);
            }
            k = k + 1;
        }
        assert(params_bound(*scope, params@, steps, types));
        let ghost fs0 = fs;
        let mut scratch: Vec<RType> = Vec::new();
        self.walk_stmts(body, body.len(), &mut fs, &mut scratch);
        let ghost db = choose|d: Deriv|
            stmts_done(c0, fs0, body@, body@.len() as int, d, *self, fs) && scratch@ == Seq::<RType>::empty() + flatten(
                pushes(d),
                body@.len() as int,
            );
        let ghost n = body@.len() as int;
        let ghost (bds, bts, bcs, bss) = parts(db);
        let ghost db2 = Deriv::Node {
            ds: bds,
            ts: bts,
            cs: bcs,
            ss: bss.take(n).push(fs),
            ps: pushes(db),
            nar: None,
            names: Seq::empty(),
            facts: None,
            bind: None,
            s3: None,
        };
        proof {
            lemma_stmts_len(c0, fs0, body@, n, bds, bcs, bss, pushes(db), *self, fs);
            lemma_stmts_prefix(c0, fs0, body@, n, bds, bcs, bss, pushes(db), bds, bcs, bss.take(n).push(fs), pushes(db), *self, fs);
        }
        let ghost d = node(seq![db2], types, Seq::empty(), steps);
        assert(body_rel(c0, *scope, params@, body@, d, *self));
    }
}


impl Checker {
    /// Walk one statement: infer what it evaluates, apply its effects on
    /// the scope, and append the return types it collects to `collected`
    /// (see `walk_rel`).
    #[verifier::rlimit(50)]
    pub fn walk_stmt(&mut self, st: &Stmt, scope: &mut Scope, collected: &mut Vec<RType>)
        ensures
            exists|dp: (Deriv, Seq<RType>)|
                walk_rel(*old(self), *old(scope), *st, dp.0, *final(self), *final(scope), dp.1) && final(collected)@
                    == old(collected)@ + dp.1,
            same_state(*old(self), *final(self)),
        decreases st, 0nat,
    {
        let ghost c0 = *self;
        let ghost s0 = *scope;
        let ghost r0 = collected@;
        match st {
            Stmt::Assign { target, value, .. } => {
                let vt = self.infer(value, scope);
                let ghost d0 = choose|d: Deriv| infer_rel(c0, s0, *value, d, vt, *self, *scope);
                let ghost c1 = *self;
                let ghost s1 = *scope;
                let ghost gv = vt;
                self.assign_target(target, vt, scope);
                let ghost d1 = choose|d: Deriv|
                    assign_rel(c1, s1, *target, gv, d, *self, *scope) && ((*target is Ident || *target is Index) ==> parts(d).1[0] == gv);
                let ghost c2 = *self;
                let ghost s2 = *scope;
                match value {
                    Expr::Function { params, body, .. } => {
                        self.walk_function_body(params, body, scope);
                        let ghost d2 = choose|d: Deriv| body_rel(c2, s2, params@, body@, d, *self);
                        let ghost d = node(seq![d0, d1, d2], seq![gv], seq![c1, c2], seq![s1]);
                        assert(walk_rel(c0, s0, *st, d, *self, *scope, Seq::empty()));
                        assert(collected@ =~= r0 + Seq::empty());
                        proof {
                            lemma_walk_witness(c0, s0, *st, d, *self, *scope, Seq::empty(), r0, collected@);
                        }
                    },
                    _ => {
                        let ghost d = node(seq![d0, d1], seq![gv], seq![c1, c2], seq![s1]);
                        assert(walk_rel(c0, s0, *st, d, *self, *scope, Seq::empty()));
                        assert(collected@ =~= r0 + Seq::empty());
                        proof {
                            lemma_walk_witness(c0, s0, *st, d, *self, *scope, Seq::empty(), r0, collected@);
                        }
                    },
                }
                assert(collected@ == r0 + Seq::<RType>::empty());
            },
            Stmt::Expr(e) => {
                if is_return_call(e) {
                    match e {
                        Expr::Call { args, .. } => {
                            if args.len() > 0 {
                                proof {
                                    assert(decreases_to!(*st => args@[0].value));
                                }
                                let t = self.infer(&args[0].value, scope);
                                let ghost d0 = choose|d: Deriv| infer_rel(c0, s0, args@[0].value, d, t, *self, *scope);
                                let ghost gt = t;
                                collected.push(t);
                                let ghost d = node(seq![d0], seq![gt], Seq::empty(), Seq::empty());
                                assert(walk_rel(c0, s0, *st, d, *self, *scope, seq![gt]));
                                assert(collected@ =~= r0 + seq![gt]);
                                proof {
                                    lemma_walk_witness(c0, s0, *st, d, *self, *scope, seq![gt], r0, collected@);
                                }
                                assert(collected@ == r0 + seq![gt]);
                            } else {
                                let t = RType::new(Mode::Null, Length::Zero);
                                let ghost gt = t;
                                collected.push(t);
                                assert(walk_rel(c0, s0, *st, Deriv::Leaf, *self, *scope, seq![gt]));
                                assert(collected@ =~= r0 + seq![gt]);
                                proof {
                                    lemma_walk_witness(c0, s0, *st, Deriv::Leaf, *self, *scope, seq![gt], r0, collected@);
                                }
                                assert(collected@ == r0 + seq![gt]);
                            }
                        },
                        _ => {},
                    }
                } else {
                    let t = self.infer(e, scope);
                    let ghost d0 = choose|d: Deriv| infer_rel(c0, s0, *e, d, t, *self, *scope);
                    let ghost d = node(seq![d0], seq![t], Seq::empty(), Seq::empty());
                    assert(walk_rel(c0, s0, *st, d, *self, *scope, Seq::empty()));
                    assert(collected@ =~= r0 + Seq::empty());
                    proof {
                        lemma_walk_witness(c0, s0, *st, d, *self, *scope, Seq::empty(), r0, collected@);
                    }
                    assert(collected@ == r0 + Seq::<RType>::empty());
                }
            },
            Stmt::Return { value, .. } => {
                match value {
                    Some(v) => {
                        let t = self.infer(v, scope);
                        let ghost d0 = choose|d: Deriv| infer_rel(c0, s0, *v, d, t, *self, *scope);
                        let ghost gt = t;
                        collected.push(t);
                        let ghost d = node(seq![d0], seq![gt], Seq::empty(), Seq::empty());
                        assert(walk_rel(c0, s0, *st, d, *self, *scope, seq![gt]));
                        assert(collected@ =~= r0 + seq![gt]);
                        proof {
                            lemma_walk_witness(c0, s0, *st, d, *self, *scope, seq![gt], r0, collected@);
                        }
                        assert(collected@ == r0 + seq![gt]);
                    },
                    None => {
                        let t = RType::new(Mode::Null, Length::Zero);
                        let ghost gt = t;
                        collected.push(t);
                        assert(walk_rel(c0, s0, *st, Deriv::Leaf, *self, *scope, seq![gt]));
                        assert(collected@ =~= r0 + seq![gt]);
                        proof {
                            lemma_walk_witness(c0, s0, *st, Deriv::Leaf, *self, *scope, seq![gt], r0, collected@);
                        }
                        assert(collected@ == r0 + seq![gt]);
                    },
                }
            },
            Stmt::If { cond, then, else_, .. } => {
                let ct = self.infer(cond, scope);
                let ghost d0 = choose|d: Deriv| infer_rel(c0, s0, *cond, d, ct, *self, *scope);
                let ghost c1 = *self;
                let ghost s1 = *scope;
                let nar = self.extract_type_narrowing(cond, scope, &self.stubs.predicates);
                let (mut then_scope, mut else_scope, names) = apply_narrowing(scope, &nar);
                let ghost t0 = then_scope;
                let ghost e0 = else_scope;
                let ghost rt0 = collected@;
                self.walk_stmts(then, then.len(), &mut then_scope, collected);
                let ghost dt = choose|d: Deriv|
                    stmts_done(c1, t0, then@, then@.len() as int, d, *self, then_scope) && collected@ == rt0 + flatten(
                        pushes(d),
                        then@.len() as int,
                    );
                let ghost c2 = *self;
                let ghost re0 = collected@;
                let has_else = else_.is_some();
                let ghost mut d2 = Deriv::Leaf;
                match else_ {
                    Some(eb) => {
                        self.walk_stmts(eb, eb.len(), &mut else_scope, collected);
                        proof {
                            d2 = choose|d: Deriv|
                                stmts_done(c2, e0, eb@, eb@.len() as int, d, *self, else_scope) && collected@ == re0 + flatten(
                                    pushes(d),
                                    eb@.len() as int,
                                );
                        }
                    },
                    None => {},
                }
                let ghost te = then_scope;
                let ghost ee = else_scope;
                self.merge_branch_bindings(scope, then_scope, else_scope, has_else, &names);
                let ghost d = Deriv::Node {
                    ds: seq![d0, dt, d2],
                    ts: seq![ct],
                    cs: seq![c1, c2],
                    ss: seq![s1, t0, e0, te, ee],
                    ps: Seq::empty(),
                    nar: Some(nar),
                    names: names@,
                    facts: None,
                    bind: None,
                    s3: None,
                };
                let ghost pushed = match else_ {
                    Some(eb) => flatten(pushes(dt), then@.len() as int) + flatten(pushes(d2), eb@.len() as int),
                    None => flatten(pushes(dt), then@.len() as int),
                };
                assert(merge_effect(s1, *scope, te, ee, has_else, names@));
                assert(walk_rel(c0, s0, *st, d, *self, *scope, pushed));
                assert(collected@ =~= r0 + pushed);
                proof {
                    lemma_walk_witness(c0, s0, *st, d, *self, *scope, pushed, r0, collected@);
                }
                assert(collected@ =~= r0 + pushed);
            },
            Stmt::For { name, iter, body, .. } => {
                let it = self.infer(iter, scope);
                let ghost d0 = choose|d: Deriv| infer_rel(c0, s0, *iter, d, it, *self, *scope);
                let ghost c1 = *self;
                let ghost s1 = *scope;
                let mut inner = copy_scope(scope);
                let ghost i0 = inner;
                let elem = element_type(&it);
                let ghost ge = elem;
                inner.insert(name.as_str(), elem);
                let ghost i1 = inner;
                let ghost rb = collected@;
                self.walk_stmts(body, body.len(), &mut inner, collected);
                let ghost db = choose|d: Deriv|
                    stmts_done(c1, i1, body@, body@.len() as int, d, *self, inner) && collected@ == rb + flatten(
                        pushes(d),
                        body@.len() as int,
                    );
                let ghost i2 = inner;
                let ghost mut steps: Seq<Scope> = seq![*scope];
                let ghost mut copies: Seq<RType> = Seq::empty();
                let mut k: usize = 0;
                while k < inner.bindings.len()
                    invariant
                        k <= inner.bindings@.len(),
                        inner == i2,
                        steps.len() == k + 1,
                        copies.len() == k,
                        steps[0] == s1,
                        steps[k as int] == *scope,
                        forall|j: int|
                            0 <= j < k ==> ty_eq(#[trigger] copies[j], inner.bindings@[j].1) && rebound(
                                steps[j],
                                steps[j + 1],
                                inner.bindings@[j].0@,
                                copies[j],
                            ),
                    decreases inner.bindings.len() - k,
                {
                    let t = copy_type(&inner.bindings[k].1);
                    let ghost gt = t;
                    scope.insert(inner.bindings[k].0.as_str(), t);
                    proof {
                        steps = steps.push(*scope);
                        copies = copies.push(gt);
                    }
                    k = k + 1;
                }
                let ghost dc = node(Seq::empty(), copies, Seq::empty(), steps);
                let ghost d = node(seq![d0, db, dc], seq![it, ge], seq![c1], seq![s1, i0, i1, i2]);
                assert(bindings_copied(i2, s1, steps, copies));
                assert(walk_rel(c0, s0, *st, d, *self, *scope, flatten(pushes(db), body@.len() as int)));
                assert(collected@ =~= r0 + flatten(pushes(db), body@.len() as int));
                proof {
                    lemma_walk_witness(c0, s0, *st, d, *self, *scope, flatten(pushes(db), body@.len() as int), r0, collected@);
                }
            },
            Stmt::While { cond, body, .. } => {
                let ct = self.infer(cond, scope);
                let ghost d0 = choose|d: Deriv| infer_rel(c0, s0, *cond, d, ct, *self, *scope);
                let ghost c1 = *self;
                let ghost s1 = *scope;
                let ghost rb = collected@;
                self.walk_stmts(body, body.len(), scope, collected);
                let ghost db = choose|d: Deriv|
                    stmts_done(c1, s1, body@, body@.len() as int, d, *self, *scope) && collected@ == rb + flatten(
                        pushes(d),
                        body@.len() as int,
                    );
                let ghost d = node(seq![d0, db], seq![ct], seq![c1], seq![s1]);
                assert(walk_rel(c0, s0, *st, d, *self, *scope, flatten(pushes(db), body@.len() as int)));
                assert(collected@ =~= r0 + flatten(pushes(db), body@.len() as int));
                proof {
                    lemma_walk_witness(c0, s0, *st, d, *self, *scope, flatten(pushes(db), body@.len() as int), r0, collected@);
                }
            },
            Stmt::FunctionDef { name, params, body, .. } => {
                let vt = RType::scalar(Mode::Function);
                let ghost gv = vt;
                match name {
                    Some(n) => scope.insert(n.as_str(), vt),
                    None => {},
                }
                let ghost s1 = *scope;
                self.walk_function_body(params, body, scope);
                let ghost db = choose|d: Deriv| body_rel(c0, s1, params@, body@, d, *self);
                let ghost d = node(seq![db], seq![gv], Seq::empty(), Seq::empty());
                assert(walk_rel(c0, s0, *st, d, *self, *scope, Seq::empty()));
                assert(collected@ =~= r0 + Seq::empty());
                proof {
                    lemma_walk_witness(c0, s0, *st, d, *self, *scope, Seq::empty(), r0, collected@);
                }
                assert(collected@ == r0 + Seq::<RType>::empty());
            },
        }
    }

    /// The value of a block's last statement (see `value_rel`).
    pub fn infer_stmt_value(&mut self, st: &Stmt, scope: &mut Scope) -> (r: RType)
        ensures
            exists|d: Deriv| value_rel(*old(self), *old(scope), *st, d, r, *final(self), *final(scope)),
            same_state(*old(self), *final(self)),
        decreases st, 1nat,
    {
        let ghost c0 = *self;
        let ghost s0 = *scope;
        match st {
            Stmt::Expr(e) => {
                let r = self.infer(e, scope);
                let ghost d = choose|d: Deriv| infer_rel(c0, s0, *e, d, r, *self, *scope);
                assert(value_rel(c0, s0, *st, d, r, *self, *scope));
                r
            },
            Stmt::Assign { target, value, .. } => {
                let vt = self.infer(value, scope);
                let ghost d0 = choose|d: Deriv| infer_rel(c0, s0, *value, d, vt, *self, *scope);
                let ghost c1 = *self;
                let ghost s1 = *scope;
                let stored = copy_type(&vt);
                let ghost gs = stored;
                self.assign_target(target, stored, scope);
                let ghost d1 = choose|d: Deriv|
                    assign_rel(c1, s1, *target, gs, d, *self, *scope) && ((*target is Ident || *target is Index) ==> parts(d).1[0] == gs);
                proof {
                    lemma_assign_value(c1, s1, *target, gs, vt, d1, *self, *scope);
                }
                let ghost d = node(seq![d0, d1], seq![vt], seq![c1], seq![s1]);
                assert(value_rel(c0, s0, *st, d, vt, *self, *scope));
                vt
            },
            Stmt::Return { value, .. } => match value {
                Some(v) => {
                    let r = self.infer(v, scope);
                    let ghost d = choose|d: Deriv| infer_rel(c0, s0, *v, d, r, *self, *scope);
                    assert(value_rel(c0, s0, *st, d, r, *self, *scope));
                    r
                },
                None => {
                    let r = RType::new(Mode::Null, Length::Zero);
                    assert(value_rel(c0, s0, *st, Deriv::Leaf, r, *self, *scope));
                    r
                },
            },
            _ => {
                let mut scratch: Vec<RType> = Vec::new();
                self.walk_stmt(st, scope, &mut scratch);
                let ghost dp = choose|dp: (Deriv, Seq<RType>)|
                    walk_rel(c0, s0, *st, dp.0, *self, *scope, dp.1) && scratch@ == Seq::<RType>::empty() + dp.1;
                let r = RType::unknown();
                let ghost d = Deriv::Node {
                    ds: seq![dp.0],
                    ts: Seq::empty(),
                    cs: Seq::empty(),
                    ss: Seq::empty(),
                    ps: seq![dp.1],
                    nar: None,
                    names: Seq::empty(),
                    facts: None,
                    bind: None,
                    s3: None,
                };
                assert(value_rel(c0, s0, *st, d, r, *self, *scope));
                r
            },
        }
    }
}

} // verus!
