//! Properties of the checker that hold across calls and for every input.
use vstd::prelude::*;
use crate::assigned::{intercepts_spec, plain_target_spec, root_spec, target_writes};
use crate::checker::{Checker, Severity, diag_views, reports_added};
use crate::matching::{ArgumentMatch, MatchState, candidate_from, exact_pass, free_from, match_spec, opt_int, partial_end, partial_pass, positional_pass};
use crate::ast::{Expr, Param, Span, Stmt};
use crate::reads::{formal_tags, index_function};
use crate::scope::{Scope, lookup, rebinds};
use crate::loops::{body_end_joined, breaks_joined, exit_applied, has_transfer, loop_exits, loop_finished, loop_outer, nexts_joined, skip_joined};
use crate::checker::LoopExitFrame;
use crate::test_template::{TestTemplateSite, collapse_reports, template_result};
use crate::ast::Expr as SyntaxExpr;
use crate::assigned::{bound_in_stmt, bound_in_stmts};
use crate::guards::{call_on_parameter_spec, direct_parameter_spec, parameter_vector_guard, vector_predicate_spec};
use crate::loops::{TransferShadowing, first_end, reachable_spec};
use crate::scope::has_name;
use crate::ast::BinOpKind;
use crate::condition::comparison_spec;
use crate::matching::lev;
use crate::ops_chooser::{LiteralFunction, dispatch_class, dispatch_spec, method_name};
use crate::recall::ResolutionFacts;
use crate::typeshed::assoc;
use crate::types::{RType, is_unknown_type, join_of, lemma_column_decreases, lemma_member_decreases, ty_eq, Mode};

use crate::binop::{binop_reports, binop_result, dispatches, frame_applies, has_factor, report, ry040_message};
use crate::condition::arithmetic_spec;
use crate::index::{closed_frame, dollar_name, field_type, index_reports, index_result};
use crate::subscript::{classless, definitely_atomic_spec, may_dispatch_spec};
use crate::call_checks::{column_names, undefined_column_message};
use crate::ast::{Arg, IndexKind};
use crate::types::{is_plain_type, Length};
use crate::index_write::{column_write_scope, field_written, index_write_scope, rebound};
use crate::subscript::column_name_spec;
use crate::index::dollar_result;

verus! {

/// A read gives back what a write wrote: after binding `name` to `ty`,
/// looking `name` up yields `ty`, and every other name looks up as before.
pub proof fn law_scope_read_after_write(before: Scope, after: Scope, name: Seq<char>, ty: RType)
    requires
        rebinds(before, after, name, ty),
    ensures
        lookup(after, name) == Some(ty),
        forall|n: Seq<char>| n != name ==> #[trigger] lookup(after, n) == lookup(before, n),
{
    assert(lookup(after, name) == Some(ty));
}

/// Structural type equality is symmetric.
pub proof fn law_ty_eq_symmetric(a: RType, b: RType)
    requires
        ty_eq(a, b),
    ensures
        ty_eq(b, a),
    decreases a,
{
    if let (Some(x), Some(y)) = (a.members, b.members) {
        assert forall|i: int| 0 <= i < y@.len() implies ty_eq(#[trigger] y@[i], x@[i]) by {
            lemma_member_decreases(a, i);
            assert(ty_eq(x@[i], y@[i]));
            law_ty_eq_symmetric(x@[i], y@[i]);
        }
    }
    if let (Some(x), Some(y)) = (a.columns, b.columns) {
        assert forall|i: int| 0 <= i < y.columns@.len() implies (#[trigger] y.columns@[i]).0@
            == x.columns@[i].0@ && ty_eq(y.columns@[i].1, x.columns@[i].1) by {
            lemma_column_decreases(a, i);
            assert(x.columns@[i].0@ == y.columns@[i].0@ && ty_eq(x.columns@[i].1, y.columns@[i].1));
            law_ty_eq_symmetric(x.columns@[i].1, y.columns@[i].1);
        }
    }
}

/// Structural type equality is transitive.
pub proof fn law_ty_eq_transitive(a: RType, b: RType, c: RType)
    requires
        ty_eq(a, b),
        ty_eq(b, c),
    ensures
        ty_eq(a, c),
    decreases a,
{
    if let (Some(x), Some(y), Some(z)) = (a.members, b.members, c.members) {
        assert forall|i: int| 0 <= i < x@.len() implies ty_eq(#[trigger] x@[i], z@[i]) by {
            lemma_member_decreases(a, i);
            assert(ty_eq(x@[i], y@[i]));
            assert(ty_eq(y@[i], z@[i]));
            law_ty_eq_transitive(x@[i], y@[i], z@[i]);
        }
    }
    if let (Some(x), Some(y), Some(z)) = (a.columns, b.columns, c.columns) {
        assert forall|i: int| 0 <= i < x.columns@.len() implies (#[trigger] x.columns@[i]).0@
            == z.columns@[i].0@ && ty_eq(x.columns@[i].1, z.columns@[i].1) by {
            lemma_column_decreases(a, i);
            assert(ty_eq(x.columns@[i].1, y.columns@[i].1));
            assert(ty_eq(y.columns@[i].1, z.columns@[i].1));
            law_ty_eq_transitive(x.columns@[i].1, y.columns@[i].1, z.columns@[i].1);
        }
    }
}

/// Joining a type with a structurally equal type gives the type back.
pub proof fn law_join_idempotent(a: RType, b: RType, r: RType)
    requires
        ty_eq(a, b),
        join_of(a, b, r),
    ensures
        r == a,
{
}

/// Joining two different types one of which is opaque gives the opaque
/// type.
pub proof fn law_join_with_opaque_is_opaque(a: RType, b: RType, r: RType)
    requires
        !ty_eq(a, b),
        a.mode == Mode::Opaque || b.mode == Mode::Opaque,
        join_of(a, b, r),
    ensures
        is_unknown_type(r),
{
}

/// The bindings state of a match pass agrees with its per-actual bindings:
/// a formal is bound exactly when some actual binds it.
pub open spec fn state_consistent(st: MatchState, nparams: int, nactuals: int) -> bool {
    &&& st.pfa.len() == nactuals
    &&& st.bound.len() == nparams
    &&& forall|j: int|
        0 <= j < nparams ==> #[trigger] st.bound[j] == exists|i: int|
            0 <= i < nactuals && st.pfa[i] == Some(j)
    &&& forall|i: int| 0 <= i < nactuals ==> (#[trigger] st.pfa[i] matches Some(j) ==> 0 <= j < nparams)
}

proof fn lemma_exact_from_range(params: Seq<Seq<char>>, name: Seq<char>, from: int)
    requires
        0 <= from,
    ensures
        exact_from_range(params, name, from),
    decreases params.len() - from,
{
    if from < params.len() {
        lemma_exact_from_range(params, name, from + 1);
    }
}

/// An exact match names a formal.
pub open spec fn exact_from_range(params: Seq<Seq<char>>, name: Seq<char>, from: int) -> bool {
    crate::matching::exact_from(params, name, from) matches Some(j) ==> from <= j < params.len()
}

proof fn lemma_candidate_range(params: Seq<Seq<char>>, bound: Seq<bool>, name: Seq<char>, end: int, from: int)
    requires
        0 <= from,
        end <= params.len(),
        end <= bound.len(),
    ensures
        candidate_from(params, bound, name, end, from) matches Some(j) ==> from <= j < end && !bound[j],
    decreases end - from,
{
    if from < end {
        lemma_candidate_range(params, bound, name, end, from + 1);
    }
}

proof fn lemma_partial_end_range(params: Seq<Seq<char>>)
    ensures
        0 <= partial_end(params) <= params.len(),
{
    lemma_dots_from_range(params, 0);
}

proof fn lemma_dots_from_range(params: Seq<Seq<char>>, from: int)
    requires
        0 <= from,
    ensures
        crate::matching::dots_from(params, from) matches Some(d) ==> from <= d < params.len(),
    decreases params.len() - from,
{
    if from < params.len() {
        lemma_dots_from_range(params, from + 1);
    }
}

proof fn lemma_free_from_range(bound: Seq<bool>, end: int, from: int)
    requires
        0 <= from,
        end <= bound.len(),
    ensures
        free_from(bound, end, from) >= from,
        free_from(bound, end, from) < end ==> !bound[free_from(bound, end, from)],
    decreases end - from,
{
    if from < end && bound[from] {
        lemma_free_from_range(bound, end, from + 1);
    }
}

proof fn lemma_partial_consistent(params: Seq<Seq<char>>, names: Seq<Option<Seq<char>>>, k: int)
    requires
        0 <= k <= names.len(),
    ensures
        state_consistent(partial_pass(params, names, k), params.len() as int, names.len() as int),
    decreases k,
{
    if k <= 0 {
        let st = exact_pass(params, names);
        assert forall|i: int| 0 <= i < names.len() implies (#[trigger] st.pfa[i] matches Some(j) ==> 0 <= j < params.len()) by {
            if let Some(n) = names[i] {
                lemma_exact_from_range(params, n, 0);
            }
        }
    } else {
        lemma_partial_consistent(params, names, k - 1);
        let st = partial_pass(params, names, k - 1);
        let i = k - 1;
        if !(st.pfa[i] is Some || names[i] is None) {
            let n = names[i]->0;
            let end = partial_end(params);
            lemma_partial_end_range(params);
            lemma_candidate_range(params, st.bound, n, end, 0);
            match candidate_from(params, st.bound, n, end, 0) {
                Some(j) => {
                    if candidate_from(params, st.bound, n, end, j + 1) is None {
                        let nst = partial_pass(params, names, k);
                        assert forall|f: int| 0 <= f < params.len() implies #[trigger] nst.bound[f] == exists|a: int|
                            0 <= a < names.len() && nst.pfa[a] == Some(f) by {
                            if f == j {
                                assert(nst.pfa[i] == Some(j));
                            } else {
                                if st.bound[f] {
                                    let a = choose|a: int| 0 <= a < names.len() && st.pfa[a] == Some(f);
                                    assert(a != i);
                                    assert(nst.pfa[a] == Some(f));
                                }
                                if exists|a: int| 0 <= a < names.len() && nst.pfa[a] == Some(f) {
                                    let a = choose|a: int| 0 <= a < names.len() && nst.pfa[a] == Some(f);
                                    assert(a != i);
                                    assert(st.pfa[a] == Some(f));
                                }
                            }
                        }
                    }
                },
                None => {},
            }
        }
    }
}

proof fn lemma_positional_consistent(params: Seq<Seq<char>>, names: Seq<Option<Seq<char>>>, k: int)
    requires
        0 <= k <= names.len(),
    ensures
        state_consistent(positional_pass(params, names, k).st, params.len() as int, names.len() as int),
        0 <= positional_pass(params, names, k).next,
    decreases k,
{
    if k <= 0 {
        lemma_partial_consistent(params, names, names.len() as int);
    } else {
        lemma_positional_consistent(params, names, k - 1);
        let prev = positional_pass(params, names, k - 1);
        let i = k - 1;
        if names[i] is None {
            let end = partial_end(params);
            lemma_partial_end_range(params);
            let j = free_from(prev.st.bound, end, prev.next);
            lemma_free_from_range(prev.st.bound, end, prev.next);
            if j < end {
                let nst = positional_pass(params, names, k).st;
                if prev.st.pfa[i] is Some {
                    // An unnamed actual is never bound by the named passes.
                    lemma_unnamed_unbound(params, names, k - 1, i);
                }
                assert forall|f: int| 0 <= f < params.len() implies #[trigger] nst.bound[f] == exists|a: int|
                    0 <= a < names.len() && nst.pfa[a] == Some(f) by {
                    if f == j {
                        assert(nst.pfa[i] == Some(j));
                    } else {
                        if prev.st.bound[f] {
                            let a = choose|a: int| 0 <= a < names.len() && prev.st.pfa[a] == Some(f);
                            assert(a != i);
                            assert(nst.pfa[a] == Some(f));
                        }
                        if exists|a: int| 0 <= a < names.len() && nst.pfa[a] == Some(f) {
                            let a = choose|a: int| 0 <= a < names.len() && nst.pfa[a] == Some(f);
                            assert(a != i);
                            assert(prev.st.pfa[a] == Some(f));
                        }
                    }
                }
            }
        }
    }
}

/// Unnamed actuals are left unbound until the positional pass reaches them.
proof fn lemma_unnamed_unbound(params: Seq<Seq<char>>, names: Seq<Option<Seq<char>>>, k: int, i: int)
    requires
        0 <= k <= i < names.len(),
        names[i] is None,
    ensures
        positional_pass(params, names, k).st.pfa[i] is None,
    decreases k,
{
    if k > 0 {
        lemma_unnamed_unbound(params, names, k - 1, i);
        lemma_positional_consistent(params, names, k - 1);
    } else {
        lemma_partial_unnamed(params, names, names.len() as int, i);
    }
}

proof fn lemma_partial_unnamed(params: Seq<Seq<char>>, names: Seq<Option<Seq<char>>>, k: int, i: int)
    requires
        0 <= k <= names.len(),
        0 <= i < names.len(),
        names[i] is None,
    ensures
        partial_pass(params, names, k).pfa[i] is None,
    decreases k,
{
    if k > 0 {
        lemma_partial_unnamed(params, names, k - 1, i);
        lemma_partial_consistent(params, names, k - 1);
    }
}

/// Argument matching is consistent: a formal is reported bound exactly
/// when some actual is matched to it, and every actual is matched to a
/// formal of the callee or to none.
pub proof fn law_match_bindings_consistent(
    params: Seq<Seq<char>>,
    names: Seq<Option<Seq<char>>>,
    m: ArgumentMatch,
)
    requires
        match_spec(params, names, m),
    ensures
        forall|j: int|
            0 <= j < params.len() ==> #[trigger] m.bound_params@[j] == exists|i: int|
                0 <= i < names.len() && opt_int(m.param_for_arg@[i]) == Some(j),
        forall|i: int|
            0 <= i < names.len() ==> (#[trigger] m.param_for_arg@[i] matches Some(j) ==> j
                < params.len()),
{
    lemma_positional_consistent(params, names, names.len() as int);
    let fin = positional_pass(params, names, names.len() as int).st;
    assert forall|j: int| 0 <= j < params.len() implies #[trigger] m.bound_params@[j] == exists|i: int|
        0 <= i < names.len() && opt_int(m.param_for_arg@[i]) == Some(j) by {
        assert(m.bound_params@[j] == fin.bound[j]);
        if fin.bound[j] {
            let i = choose|i: int| 0 <= i < names.len() && fin.pfa[i] == Some(j);
            assert(opt_int(m.param_for_arg@[i]) == fin.pfa[i]);
        }
        if exists|i: int| 0 <= i < names.len() && opt_int(m.param_for_arg@[i]) == Some(j) {
            let i = choose|i: int| 0 <= i < names.len() && opt_int(m.param_for_arg@[i]) == Some(j);
            assert(opt_int(m.param_for_arg@[i]) == fin.pfa[i]);
        }
    }
    assert forall|i: int| 0 <= i < names.len() implies (#[trigger] m.param_for_arg@[i] matches Some(j) ==> j
        < params.len()) by {
        assert(opt_int(m.param_for_arg@[i]) == fin.pfa[i]);
    }
}

/// A `<<-` outside every function literal of the scanned body is never
/// intercepted: its root name always counts as a write of the scanned
/// scope.
pub proof fn law_top_level_superassignment_reaches_scope(lhs: Expr, root: Seq<String>, n: Seq<char>)
    requires
        root_spec(lhs) == Some(n),
    ensures
        !intercepts_spec(seq![], root, n),
        target_writes(lhs, seq![], root) == (set![n], false),
{
}

/// A `<<-` with a subscripted or replacement-call target always counts as
/// a write of its root name, however many function frames bind that name.
pub proof fn law_complex_target_always_written(lhs: Expr, frames: Seq<Seq<String>>, root: Seq<String>, n: Seq<char>)
    requires
        root_spec(lhs) == Some(n),
        !plain_target_spec(lhs),
    ensures
        target_writes(lhs, frames, root) == (set![n], false),
{
}

/// The formals a `<<-` skips over never include those of the function it
/// stands in: only the enclosing frames can intercept it.
pub proof fn law_own_frame_never_intercepts(
    frames: Seq<Seq<String>>,
    root: Seq<String>,
    own: Seq<String>,
    other: Seq<String>,
    n: Seq<char>,
)
    ensures
        intercepts_spec(frames.push(own), root, n) == intercepts_spec(frames.push(other), root, n),
{
    let a = frames.push(own);
    let b = frames.push(other);
    assert forall|j: int| 0 <= j < frames.len() implies a[j] == #[trigger] b[j] by {}
    if exists|j: int| 0 <= j < a.len() - 1 && #[trigger] crate::scope::has_name(a[j], n) {
        let j = choose|j: int| 0 <= j < a.len() - 1 && #[trigger] crate::scope::has_name(a[j], n);
        assert(b[j] == a[j]);
    }
    if exists|j: int| 0 <= j < b.len() - 1 && #[trigger] crate::scope::has_name(b[j], n) {
        let j = choose|j: int| 0 <= j < b.len() - 1 && #[trigger] crate::scope::has_name(b[j], n);
        assert(b[j] == a[j]);
    }
}

/// The reads indexed for a function are always among its own formals.
pub proof fn law_formal_reads_are_formals(
    params: Seq<Param>,
    body: Seq<Stmt>,
    span: Span,
    m: Map<Span, Set<Seq<char>>>,
)
    ensures
        index_function(params, body, span, m).dom().contains(span),
        index_function(params, body, span, m)[span].subset_of(formal_tags(params)),
{
}

/// While inference discards its reports, no check adds a finding; otherwise
/// a check adds exactly its findings, after those already reported.
pub proof fn law_discarding_reports_nothing(
    a: Checker,
    b: Checker,
    added: Seq<(Severity, Span, Seq<char>, Seq<char>)>,
)
    requires
        reports_added(a, b, added),
    ensures
        a.discarding ==> diag_views(b.diagnostics@) == diag_views(a.diagnostics@),
        !a.discarding ==> diag_views(b.diagnostics@) == diag_views(a.diagnostics@) + added,
        b.discarding == a.discarding,
{
    if a.discarding {
        assert(diag_views(a.diagnostics@) + seq![] =~= diag_views(a.diagnostics@));
    }
}

/// A literal `TRUE` loop that recorded no `break` can leave only through
/// an unmodelled effect: when the body has none, the code after the loop
/// is unreachable.
pub proof fn law_true_loop_without_break_never_exits(
    frame: LoopExitFrame,
    before: Scope,
    inner: Scope,
    entered: bool,
    after: Scope,
)
    requires
        loop_finished(frame, before, inner, true, entered, after),
        frame.breaks is None,
        frame.nexts is Some,
        !inner.effects_unknown,
    ensures
        after.unreachable,
{
    let outer = loop_outer(before, inner);
    let exits = choose|exits: Option<Box<Scope>>|
        #![trigger loop_exits(frame, inner, loop_outer(before, inner), true, entered, exits)]
        {
            &&& loop_exits(frame, inner, loop_outer(before, inner), true, entered, exits)
            &&& match exits {
                Some(e) => exit_applied(loop_outer(before, inner), *e, after),
                None => after == Scope { unreachable: after.unreachable, ..loop_outer(before, inner) },
            }
            &&& after.unreachable == (before.unreachable || (true && !(exits is Some && !(
            true && !has_transfer(frame) && inner.unreachable))))
        };
    assert(has_transfer(frame));
    let (e1, e2, e3) = choose|e1: Option<Box<Scope>>, e2: Option<Box<Scope>>, e3: Option<Box<Scope>>|
        #![trigger breaks_joined(frame, inner, e1), body_end_joined(true, inner, e1, e2), nexts_joined(true, frame, e2, e3)]
        {
            &&& breaks_joined(frame, inner, e1)
            &&& body_end_joined(true, inner, e1, e2)
            &&& nexts_joined(true, frame, e2, e3)
            &&& skip_joined(true, entered, outer, e3, exits)
        };
    assert(e1 is None);
    assert(e2 is None);
    assert(e3 is None);
    assert(exits is None);
}

/// A loop that recorded no `break` or `next` leaves with the scope at the
/// end of its body: every name the body binds has the body's type after
/// the loop, and every other name keeps its binding.
pub proof fn law_loop_without_transfer_exits_with_the_body(
    frame: LoopExitFrame,
    before: Scope,
    inner: Scope,
    always_true: bool,
    entered: bool,
    after: Scope,
)
    requires
        loop_finished(frame, before, inner, always_true, entered, after),
        !has_transfer(frame),
    ensures
        forall|n: Seq<char>|
            #![trigger lookup(after, n)]
            lookup(after, n) == match lookup(inner, n) {
                Some(t) => Some(t),
                None => lookup(before, n),
            },
{
    let exits = choose|exits: Option<Box<Scope>>|
        #![trigger loop_exits(frame, inner, loop_outer(before, inner), always_true, entered, exits)]
        {
            &&& loop_exits(frame, inner, loop_outer(before, inner), always_true, entered, exits)
            &&& match exits {
                Some(e) => exit_applied(loop_outer(before, inner), *e, after),
                None => after == Scope { unreachable: after.unreachable, ..loop_outer(before, inner) },
            }
            &&& after.unreachable == (before.unreachable || (always_true && !(exits is Some && !(
            always_true && !has_transfer(frame) && inner.unreachable))))
        };
    assert(exits == Some(Box::new(inner)));
    let flagged = Scope {
        effects_unknown: loop_outer(before, inner).effects_unknown || inner.effects_unknown,
        ops_environment_unknown: loop_outer(before, inner).ops_environment_unknown
            || inner.ops_environment_unknown,
        ..loop_outer(before, inner)
    };
    let seen = Scope { unreachable: loop_outer(before, inner).unreachable, ..after };
    assert forall|n: Seq<char>|
        #![trigger lookup(after, n)]
        lookup(after, n) == match lookup(inner, n) {
            Some(t) => Some(t),
            None => lookup(before, n),
        } by {
        assert(lookup(seen, n) == lookup(after, n));
        assert(lookup(flagged, n) == lookup(before, n));
    }
}

/// A test that is empty or all `NA` by construction gives the logical
/// test vector itself: a logical result of the length the plain rule
/// gives.
pub proof fn law_definite_collapse_is_logical(
    site: TestTemplateSite,
    test: SyntaxExpr,
    test_ty: RType,
    scope: Scope,
    plain: RType,
    r: RType,
)
    requires
        template_result(site, test, test_ty, scope, plain, r),
        site.definite_collapse,
    ensures
        r.mode == Mode::Logical,
        r.length == plain.length,
{
}

/// A test that is certainly nonempty, and is not empty or all `NA` by
/// construction, leaves the plain rule's result alone.
pub proof fn law_nonempty_test_keeps_the_plain_result(
    site: TestTemplateSite,
    test: SyntaxExpr,
    test_ty: RType,
    scope: Scope,
    plain: RType,
    r: RType,
)
    requires
        template_result(site, test, test_ty, scope, plain, r),
        !site.may_be_empty,
        !site.definite_collapse,
    ensures
        r == plain,
{
}

/// RY106 never fires unless the value branches share a non-logical
/// atomic mode, nor without a definite collapse or a typed `NA` branch on
/// a test that may be empty.
pub proof fn law_collapse_needs_mode_and_premise(site: TestTemplateSite, span: Span)
    ensures
        site.branch_mode is None ==> collapse_reports(site, span).len() == 0,
        !site.definite_collapse && !(site.may_be_empty && site.typed_na_branch) ==> collapse_reports(site, span).len() == 0,
{
}

/// A direct parameter reference names a parameter of the scope.
proof fn lemma_direct_parameter_is_parameter(e: Expr, scope: Scope)
    ensures
        direct_parameter_spec(e, scope) matches Some(p) ==> has_name(scope.parameters@, p),
{
}

/// A call on a parameter names a parameter of the scope.
proof fn lemma_call_on_parameter_is_parameter(e: Expr, names: Seq<Seq<char>>, scope: Scope)
    ensures
        call_on_parameter_spec(e, names, scope) matches Some(p) ==> has_name(scope.parameters@, p),
{
    match e {
        Expr::Call { func, args, .. } => {
            if args@.len() > 0 {
                lemma_direct_parameter_is_parameter(args@[0].value, scope);
            }
        },
        _ => {},
    }
}

/// A vectorized predicate reads a parameter of the scope.
proof fn lemma_vector_predicate_is_parameter(e: Expr, scope: Scope)
    ensures
        vector_predicate_spec(e, scope) matches Some(p) ==> has_name(scope.parameters@, p),
    decreases e,
{
    match e {
        Expr::BinOp { lhs, rhs, .. } => {
            lemma_direct_parameter_is_parameter(*lhs, scope);
            lemma_direct_parameter_is_parameter(*rhs, scope);
        },
        Expr::UnaryOp { expr, .. } => {
            lemma_vector_predicate_is_parameter(*expr, scope);
        },
        Expr::Call { .. } => {
            lemma_call_on_parameter_is_parameter(e, seq!["is.na"@, "grepl"@, "nzchar"@], scope);
        },
        _ => {},
    }
}

/// A short-circuit parameter guard is only ever reported for a name that
/// is still a parameter of the scope: once a parameter is reassigned and
/// loses that mark, neither the guard nor the predicate can name it.
pub proof fn law_vector_guard_names_a_parameter(op: BinOpKind, lhs: Expr, rhs: Expr, scope: Scope)
    requires
        parameter_vector_guard(op, lhs, rhs, scope),
    ensures
        vector_predicate_spec(rhs, scope) matches Some(p) && has_name(scope.parameters@, p),
{
    lemma_vector_predicate_is_parameter(rhs, scope);
}

/// The names a prefix of statements binds are bound by the whole list.
proof fn lemma_bound_prefix(ss: Seq<Stmt>, k: int)
    requires
        0 <= k <= ss.len(),
    ensures
        bound_in_stmts(ss.take(k)).subset_of(bound_in_stmts(ss)),
    decreases ss.len(),
{
    if k < ss.len() {
        assert(ss.subrange(0, ss.len() - 1) =~= ss.drop_last());
        lemma_bound_prefix(ss.drop_last(), k);
        assert(ss.drop_last().take(k) =~= ss.take(k));
    } else {
        assert(ss.take(k) =~= ss);
    }
}

/// The names one statement of a list binds are bound by the list.
proof fn lemma_bound_member(ss: Seq<Stmt>, k: int)
    requires
        0 <= k < ss.len(),
    ensures
        bound_in_stmt(ss[k]).subset_of(bound_in_stmts(ss)),
{
    lemma_bound_prefix(ss, k + 1);
    let t = ss.take(k + 1);
    assert(t.subrange(0, t.len() - 1) =~= ss.take(k));
}

/// The first statement that ends an iteration lies in the list.
proof fn lemma_first_end_in_range(ss: Seq<Stmt>, i: int, scope: Scope, sh: TransferShadowing)
    ensures
        first_end(ss, i, scope, sh) matches Some(e) ==> 0 <= i <= e < ss.len(),
    decreases ss.len() - i,
{
    if 0 <= i < ss.len() {
        lemma_first_end_in_range(ss, i + 1, scope, sh);
    }
}

/// A loop body can assign before an iteration ends only names the body
/// assigns somewhere: following `break` and `next` narrows what a loop is
/// taken to write, never widens it.
pub proof fn law_reachable_assignments_are_assignments(body: Seq<Stmt>, scope: Scope, sh: TransferShadowing)
    ensures
        reachable_spec(body, scope, sh).subset_of(bound_in_stmts(body)),
    decreases body,
{
    lemma_first_end_in_range(body, 0, scope, sh);
    match first_end(body, 0, scope, sh) {
        None => {},
        Some(e) => {
            lemma_bound_prefix(body, e);
            lemma_bound_member(body, e);
            match body[e] {
                Stmt::Expr(Expr::Block { body: b, .. }) => {
                    assert(decreases_to!(body => body[e]));
                    law_reachable_assignments_are_assignments(b@, scope, sh);
                },
                _ => {},
            }
        },
    }
}

/// The value of `a op b` for a comparison operator.
pub open spec fn compare_values(a: int, op: BinOpKind, b: int) -> bool {
    match op {
        BinOpKind::Lt => a < b,
        BinOpKind::Le => a <= b,
        BinOpKind::Gt => a > b,
        BinOpKind::Ge => a >= b,
        BinOpKind::Eq => a == b,
        _ => a != b,
    }
}

/// The outcome a constant length guard is reported with is the value the
/// guard has: with `length(...)` equal to 1 and a bound at most zero,
/// `length(...) op bound` is FALSE for `==`, `<`, `<=` and TRUE for the
/// other comparisons, whatever the bound.
pub proof fn law_constant_length_outcome(op: BinOpKind, bound: int)
    requires
        comparison_spec(op),
        bound <= 0,
    ensures
        compare_values(1, op, bound) == !(op == BinOpKind::Eq || op == BinOpKind::Lt || op == BinOpKind::Le),
{
}

/// Entries of a table of literal functions that name one function object
/// hold the same facts.
pub open spec fn ids_consistent(table: Seq<(String, LiteralFunction)>) -> bool {
    forall|i: int, j: int|
        0 <= i < table.len() && 0 <= j < table.len() && (#[trigger] table[i]).1.id == (#[trigger] table[j]).1.id
            ==> table[i].1 == table[j].1
}

/// A found entry is one of the table's entries.
proof fn lemma_assoc_member(table: Seq<(String, LiteralFunction)>, key: Seq<char>, from: int)
    requires
        0 <= from,
    ensures
        assoc(table, key, from) matches Some(f) ==> exists|i: int| 0 <= i < table.len() && #[trigger] table[i].1 == f,
    decreases table.len() - from,
{
    if from < table.len() {
        if table[from].0@ == key {
            assert(table[from].1 == table[from].1);
        } else {
            lemma_assoc_member(table, key, from + 1);
        }
    }
}

/// When both operands' classes name one method object, dispatch does not
/// depend on the operands' order: the shared method gives its mode either
/// way, and every other outcome is decided symmetrically.
pub proof fn law_shared_method_dispatch_is_symmetric(
    symbol: Seq<char>,
    lhs: RType,
    rhs: RType,
    scope: Scope,
    facts: ResolutionFacts,
    table: Seq<(String, LiteralFunction)>,
)
    requires
        ids_consistent(table),
        dispatch_class(lhs) matches Some(lc) && dispatch_class(rhs) matches Some(rc) && (assoc(
            table,
            method_name(symbol, lc),
            0,
        ) matches Some(f) && assoc(table, method_name(symbol, rc), 0) matches Some(g) && f.id == g.id),
    ensures
        dispatch_spec(symbol, lhs, rhs, scope, facts, table) == dispatch_spec(symbol, rhs, lhs, scope, facts, table),
{
    let lc = dispatch_class(lhs)->0;
    let rc = dispatch_class(rhs)->0;
    let f = assoc(table, method_name(symbol, lc), 0)->0;
    let g = assoc(table, method_name(symbol, rc), 0)->0;
    lemma_assoc_member(table, method_name(symbol, lc), 0);
    lemma_assoc_member(table, method_name(symbol, rc), 0);
    let i = choose|i: int| 0 <= i < table.len() && #[trigger] table[i].1 == f;
    let j = choose|j: int| 0 <= j < table.len() && #[trigger] table[j].1 == g;
    assert(f == g);
}

/// The edit distance does not depend on the order of its arguments.
pub proof fn law_edit_distance_symmetric(a: Seq<char>, b: Seq<char>)
    ensures
        lev(a, b) == lev(b, a),
    decreases a.len() + b.len(),
{
    if a.len() > 0 && b.len() > 0 {
        law_edit_distance_symmetric(a.drop_last(), b);
        law_edit_distance_symmetric(a, b.drop_last());
        law_edit_distance_symmetric(a.drop_last(), b.drop_last());
    }
}

/// A text is at distance zero from itself.
pub proof fn law_edit_distance_identity(a: Seq<char>)
    ensures
        lev(a, a) == 0,
    decreases a.len(),
{
    if a.len() > 0 {
        law_edit_distance_identity(a.drop_last());
    }
}

/// The distance from the empty text is the other text's length, either way.
pub proof fn law_edit_distance_from_empty(b: Seq<char>)
    ensures
        lev(Seq::empty(), b) == b.len(),
        lev(b, Seq::empty()) == b.len(),
{
}

/// Whether actual tag `tag` may bind formal `j`: a named actual binds a
/// formal its name equals, or, before `...`, one it is a prefix of; an
/// unnamed actual binds a formal before `...`. `...` itself is never bound.
pub open spec fn tag_allows(params: Seq<Seq<char>>, tag: Option<Seq<char>>, j: int) -> bool {
    &&& 0 <= j < params.len()
    &&& params[j] != crate::matching::dots_text()
    &&& match tag {
        Some(n) => params[j] == n || (j < partial_end(params) && crate::matching::is_prefix(n, params[j])),
        None => j < partial_end(params),
    }
}

proof fn lemma_exact_from_names(params: Seq<Seq<char>>, name: Seq<char>, from: int)
    requires
        0 <= from,
    ensures
        crate::matching::exact_from(params, name, from) matches Some(j) ==> 0 <= j < params.len()
            && params[j] != crate::matching::dots_text() && params[j] == name,
    decreases params.len() - from,
{
    if from < params.len() {
        lemma_exact_from_names(params, name, from + 1);
    }
}

proof fn lemma_before_dots(params: Seq<Seq<char>>, from: int, k: int)
    requires
        0 <= from <= k < params.len(),
        crate::matching::dots_from(params, from) matches Some(d) ==> k < d,
    ensures
        params[k] != crate::matching::dots_text(),
    decreases k - from,
{
    if from < k && params[from] != crate::matching::dots_text() {
        lemma_before_dots(params, from + 1, k);
    }
}

proof fn lemma_candidate_prefix(params: Seq<Seq<char>>, bound: Seq<bool>, name: Seq<char>, end: int, from: int)
    requires
        0 <= from,
        end <= params.len(),
        end <= bound.len(),
    ensures
        candidate_from(params, bound, name, end, from) matches Some(j) ==> crate::matching::is_prefix(name, params[j]),
    decreases end - from,
{
    if from < end {
        lemma_candidate_prefix(params, bound, name, end, from + 1);
    }
}

proof fn lemma_end_allows(params: Seq<Seq<char>>, j: int)
    requires
        0 <= j < partial_end(params),
    ensures
        j < params.len(),
        params[j] != crate::matching::dots_text(),
{
    lemma_partial_end_range(params);
    lemma_before_dots(params, 0, j);
}

proof fn lemma_partial_allows(params: Seq<Seq<char>>, names: Seq<Option<Seq<char>>>, k: int)
    requires
        0 <= k <= names.len(),
    ensures
        forall|i: int|
            0 <= i < names.len() ==> (#[trigger] partial_pass(params, names, k).pfa[i] matches Some(j) ==> names[i] is Some
                && tag_allows(params, names[i], j)),
    decreases k,
{
    lemma_partial_consistent(params, names, k);
    if k <= 0 {
        assert forall|i: int| 0 <= i < names.len() implies (#[trigger] partial_pass(params, names, k).pfa[i] matches Some(j)
            ==> names[i] is Some && tag_allows(params, names[i], j)) by {
            if let Some(n) = names[i] {
                lemma_exact_from_names(params, n, 0);
            }
        }
    } else {
        lemma_partial_allows(params, names, k - 1);
        lemma_partial_consistent(params, names, k - 1);
        let st = partial_pass(params, names, k - 1);
        let i = k - 1;
        if !(st.pfa[i] is Some || names[i] is None) {
            let n = names[i]->0;
            let end = partial_end(params);
            lemma_partial_end_range(params);
            lemma_candidate_range(params, st.bound, n, end, 0);
            lemma_candidate_prefix(params, st.bound, n, end, 0);
            if let Some(j) = candidate_from(params, st.bound, n, end, 0) {
                lemma_end_allows(params, j);
            }
        }
    }
}

/// What the positional pass keeps: every binding is allowed by its tag,
/// unnamed actuals seen so far bind increasing formals below `next`,
/// named actuals keep their earlier binding, and the unmatched named
/// actuals are listed in order.
pub open spec fn positional_invariant(params: Seq<Seq<char>>, names: Seq<Option<Seq<char>>>, k: int) -> bool {
    let ps = positional_pass(params, names, k);
    let pre = partial_pass(params, names, names.len() as int);
    &&& forall|i: int|
        0 <= i < names.len() ==> (#[trigger] ps.st.pfa[i] matches Some(j) ==> tag_allows(params, names[i], j))
    &&& forall|i: int|
        0 <= i < k && names[i] is None ==> (#[trigger] ps.st.pfa[i] matches Some(j) ==> j < ps.next)
    &&& forall|a: int, b: int|
        0 <= a < b < k && names[a] is None && names[b] is None && (#[trigger] ps.st.pfa[a]) is Some && (
        #[trigger] ps.st.pfa[b]) is Some ==> ps.st.pfa[a]->0 < ps.st.pfa[b]->0
    &&& forall|i: int| 0 <= i < names.len() && names[i] is Some ==> #[trigger] ps.st.pfa[i] == pre.pfa[i]
    &&& forall|x: int, y: int| 0 <= x < y < ps.unmatched.len() ==> #[trigger] ps.unmatched[x] < #[trigger] ps.unmatched[y]
    &&& forall|x: int|
        0 <= x < ps.unmatched.len() ==> 0 <= #[trigger] ps.unmatched[x] < k && names[ps.unmatched[x]] is Some
            && ps.st.pfa[ps.unmatched[x]] is None
    &&& forall|i: int|
        0 <= i < k && names[i] is Some && (#[trigger] ps.st.pfa[i]) is None ==> ps.unmatched.contains(i)
}

proof fn lemma_positional_invariant(params: Seq<Seq<char>>, names: Seq<Option<Seq<char>>>, k: int)
    requires
        0 <= k <= names.len(),
    ensures
        positional_invariant(params, names, k),
    decreases k,
{
    lemma_positional_consistent(params, names, k);
    if k <= 0 {
        lemma_partial_allows(params, names, names.len() as int);
    } else {
        lemma_positional_invariant(params, names, k - 1);
        lemma_positional_consistent(params, names, k - 1);
        let prev = positional_pass(params, names, k - 1);
        let cur = positional_pass(params, names, k);
        let i = k - 1;
        if names[i] is None {
            let end = partial_end(params);
            lemma_partial_end_range(params);
            let j = free_from(prev.st.bound, end, prev.next);
            lemma_free_from_range(prev.st.bound, end, prev.next);
            if prev.st.pfa[i] is Some {
                lemma_unnamed_unbound(params, names, k - 1, i);
            }
            if j < end {
                lemma_end_allows(params, j);
                assert forall|a: int, b: int|
                    0 <= a < b < k && names[a] is None && names[b] is None && (#[trigger] cur.st.pfa[a]) is Some && (
                    #[trigger] cur.st.pfa[b]) is Some implies cur.st.pfa[a]->0 < cur.st.pfa[b]->0 by {
                    if b == i {
                        assert(prev.st.pfa[a] == cur.st.pfa[a]);
                    } else {
                        assert(prev.st.pfa[a] == cur.st.pfa[a]);
                        assert(prev.st.pfa[b] == cur.st.pfa[b]);
                    }
                }
                assert forall|x: int|
                    0 <= x < cur.unmatched.len() implies 0 <= #[trigger] cur.unmatched[x] < k && names[cur.unmatched[x]] is Some
                        && cur.st.pfa[cur.unmatched[x]] is None by {
                    assert(prev.unmatched[x] == cur.unmatched[x]);
                }
                assert forall|a: int|
                    0 <= a < k && names[a] is Some && (#[trigger] cur.st.pfa[a]) is None implies cur.unmatched.contains(a) by {
                    assert(prev.st.pfa[a] == cur.st.pfa[a]);
                    assert(prev.unmatched.contains(a));
                }
            } else {
                assert forall|a: int|
                    0 <= a < k && names[a] is Some && (#[trigger] cur.st.pfa[a]) is None implies cur.unmatched.contains(a) by {
                    assert(prev.unmatched.contains(a));
                }
            }
        } else {
            if prev.st.pfa[i] is None {
                assert forall|x: int, y: int| 0 <= x < y < cur.unmatched.len() implies #[trigger] cur.unmatched[x]
                    < #[trigger] cur.unmatched[y] by {
                    if y == cur.unmatched.len() - 1 {
                        assert(cur.unmatched[y] == i);
                        assert(cur.unmatched[x] == prev.unmatched[x]);
                    } else {
                        assert(cur.unmatched[x] == prev.unmatched[x]);
                        assert(cur.unmatched[y] == prev.unmatched[y]);
                    }
                }
                assert forall|x: int|
                    0 <= x < cur.unmatched.len() implies 0 <= #[trigger] cur.unmatched[x] < k && names[cur.unmatched[x]] is Some
                        && cur.st.pfa[cur.unmatched[x]] is None by {
                    if x < prev.unmatched.len() {
                        assert(cur.unmatched[x] == prev.unmatched[x]);
                    }
                }
                assert forall|a: int|
                    0 <= a < k && names[a] is Some && (#[trigger] cur.st.pfa[a]) is None implies cur.unmatched.contains(a) by {
                    if a == i {
                        assert(cur.unmatched[cur.unmatched.len() - 1] == i);
                    } else {
                        assert(prev.unmatched.contains(a));
                        let x = choose|x: int| 0 <= x < prev.unmatched.len() && prev.unmatched[x] == a;
                        assert(cur.unmatched[x] == a);
                    }
                }
            } else {
                assert forall|a: int|
                    0 <= a < k && names[a] is Some && (#[trigger] cur.st.pfa[a]) is None implies cur.unmatched.contains(a) by {
                    if a != i {
                        assert(prev.unmatched.contains(a));
                    }
                }
            }
        }
    }
}

/// R's argument matching, stated whole: every binding is one its actual's
/// tag allows (an exact name, a prefix before `...`, or an unnamed actual
/// before `...`; never `...` itself); unnamed actuals bind formals in
/// increasing order; and the unmatched list holds, in increasing order,
/// exactly the named actuals left unbound.
pub proof fn law_match_arguments_whole(params: Seq<Seq<char>>, names: Seq<Option<Seq<char>>>, m: ArgumentMatch)
    requires
        match_spec(params, names, m),
    ensures
        forall|i: int|
            0 <= i < names.len() ==> (#[trigger] m.param_for_arg@[i] matches Some(j) ==> tag_allows(params, names[i], j as int)),
        forall|a: int, b: int|
            0 <= a < b < names.len() && names[a] is None && names[b] is None && (#[trigger] m.param_for_arg@[a]) is Some && (
            #[trigger] m.param_for_arg@[b]) is Some ==> m.param_for_arg@[a]->0 < m.param_for_arg@[b]->0,
        forall|x: int, y: int|
            0 <= x < y < m.unmatched_named@.len() ==> #[trigger] m.unmatched_named@[x] < #[trigger] m.unmatched_named@[y],
        forall|i: int|
            0 <= i < names.len() ==> ((exists|x: int| 0 <= x < m.unmatched_named@.len() && #[trigger] m.unmatched_named@[x] as int == i) <==> (names[i] is Some
                && #[trigger] m.param_for_arg@[i] is None)),
{
    let n = names.len() as int;
    lemma_positional_invariant(params, names, n);
    let fin = positional_pass(params, names, n);
    assert forall|i: int| 0 <= i < names.len() implies (#[trigger] m.param_for_arg@[i] matches Some(j) ==> tag_allows(
        params,
        names[i],
        j as int,
    )) by {
        assert(opt_int(m.param_for_arg@[i]) == fin.st.pfa[i]);
    }
    assert forall|a: int, b: int|
        0 <= a < b < names.len() && names[a] is None && names[b] is None && (#[trigger] m.param_for_arg@[a]) is Some && (
        #[trigger] m.param_for_arg@[b]) is Some implies m.param_for_arg@[a]->0 < m.param_for_arg@[b]->0 by {
        assert(opt_int(m.param_for_arg@[a]) == fin.st.pfa[a]);
        assert(opt_int(m.param_for_arg@[b]) == fin.st.pfa[b]);
    }
    assert forall|x: int, y: int| 0 <= x < y < m.unmatched_named@.len() implies #[trigger] m.unmatched_named@[x]
        < #[trigger] m.unmatched_named@[y] by {
        assert(m.unmatched_named@[x] == fin.unmatched[x]);
        assert(m.unmatched_named@[y] == fin.unmatched[y]);
    }
    assert forall|i: int| 0 <= i < names.len() implies ((exists|x: int| 0 <= x < m.unmatched_named@.len() && #[trigger] m.unmatched_named@[x] as int == i) <==> (names[i] is Some
        && #[trigger] m.param_for_arg@[i] is None)) by {
        assert(opt_int(m.param_for_arg@[i]) == fin.st.pfa[i]);
        if exists|x: int| 0 <= x < m.unmatched_named@.len() && #[trigger] m.unmatched_named@[x] as int == i {
            let x = choose|x: int| 0 <= x < m.unmatched_named@.len() && #[trigger] m.unmatched_named@[x] as int == i;
            assert(m.unmatched_named@[x] == fin.unmatched[x]);
        }
        if names[i] is Some && m.param_for_arg@[i] is None {
            assert(fin.unmatched.contains(i));
            let x = choose|x: int| 0 <= x < fin.unmatched.len() && fin.unmatched[x] == i;
            assert(m.unmatched_named@[x] == fin.unmatched[x]);
        }
    }
}


/// Arithmetic on a character operand is refused: unless the operand is a
/// data frame, a factor, a known `NULL` or dispatches to an S3 method,
/// `+ - * / ^ %% %/%` with a `character` side reports exactly one RY040
/// naming both modes, and the result is opaque.
pub proof fn law_character_arithmetic_is_ry040(
    op: BinOpKind,
    a: RType,
    b: RType,
    span: Span,
    known_null: bool,
    s3: Option<RType>,
    r: RType,
)
    requires
        arithmetic_spec(op),
        a.mode == Mode::Character || b.mode == Mode::Character,
        !frame_applies(op, a, b),
        !(dispatches(op) && s3 is Some),
        !has_factor(a, b),
        !(known_null && (a.mode == Mode::Null || b.mode == Mode::Null)),
        binop_result(op, a, b, known_null, s3, r),
    ensures
        binop_reports(op, a, b, span, known_null, s3) == report(Severity::Error, span, "RY040"@, ry040_message(a.mode, b.mode)),
        is_unknown_type(r),
{
}

/// `%in%` never reports and gives a logical vector as long as its left
/// operand.
pub proof fn law_in_is_logical_of_left_length(a: RType, b: RType, span: Span, known_null: bool, s3: Option<RType>, r: RType)
    requires
        binop_result(BinOpKind::In, a, b, known_null, s3, r),
    ensures
        binop_reports(BinOpKind::In, a, b, span, known_null, s3) == Seq::<(Severity, Span, Seq<char>, Seq<char>)>::empty(),
        is_plain_type(r, Mode::Logical, a.length),
{
}

/// `d$name` on a data frame whose schema lists every column: when the
/// column is there the read has its type and reports nothing; when it is
/// not, exactly one RY060 names it and lists the columns there are.
pub proof fn law_dollar_on_closed_frame(
    bt: RType,
    args: Seq<Arg>,
    span: Span,
    default_null_receiver: bool,
    index_types: Seq<RType>,
    r: RType,
)
    requires
        closed_frame(bt),
        bt.mode == Mode::List,
        dollar_name(args) is Some,
        index_result(bt, IndexKind::Dollar, args, default_null_receiver, index_types, r),
    ensures
        field_type(bt.columns->0, dollar_name(args)->0) matches Some(t) ==> ty_eq(r, t)
            && index_reports(bt, IndexKind::Dollar, args, span, default_null_receiver) == Seq::<
            (Severity, Span, Seq<char>, Seq<char>),
        >::empty(),
        field_type(bt.columns->0, dollar_name(args)->0) is None ==> index_reports(
            bt,
            IndexKind::Dollar,
            args,
            span,
            default_null_receiver,
        ) == seq![
            (
                Severity::Error,
                span,
                "RY060"@,
                undefined_column_message(dollar_name(args)->0, column_names(bt.columns->0.columns@)),
            ),
        ],
{
    assert(!may_dispatch_spec(bt));
    assert(!definitely_atomic_spec(bt));
}

/// `x$name` on a classless list whose schema lacks `name` reads `NULL`
/// without a report.
pub proof fn law_dollar_missing_field_of_list_is_null(
    bt: RType,
    args: Seq<Arg>,
    span: Span,
    default_null_receiver: bool,
    index_types: Seq<RType>,
    r: RType,
)
    requires
        bt.mode == Mode::List,
        classless(bt.class),
        bt.columns is Some,
        dollar_name(args) is Some,
        field_type(bt.columns->0, dollar_name(args)->0) is None,
        index_result(bt, IndexKind::Dollar, args, default_null_receiver, index_types, r),
    ensures
        is_plain_type(r, Mode::Null, Length::Zero),
        index_reports(bt, IndexKind::Dollar, args, span, default_null_receiver) == Seq::<
            (Severity, Span, Seq<char>, Seq<char>),
        >::empty(),
{
    assert(!may_dispatch_spec(bt));
    assert(!definitely_atomic_spec(bt));
}


/// A read gives back what a write wrote: after `x$name <- v` on a name
/// bound to a list, reading `x$name` gives a type equal to `v`.
pub proof fn law_dollar_read_after_write(
    a: Scope,
    b: Scope,
    base: Expr,
    base_name: Seq<char>,
    write_args: Seq<Arg>,
    vt: RType,
    read_args: Seq<Arg>,
    default_null_receiver: bool,
    index_types: Seq<RType>,
    r: RType,
)
    requires
        base matches Expr::Ident { name, .. } && name@ == base_name,
        lookup(a, base_name) matches Some(t) && t.mode == Mode::List,
        column_name_spec(IndexKind::Dollar, write_args) is Some,
        index_write_scope(a, b, base, IndexKind::Dollar, write_args, vt),
        dollar_name(read_args) == column_name_spec(IndexKind::Dollar, write_args),
        index_result(lookup(b, base_name)->0, IndexKind::Dollar, read_args, default_null_receiver, index_types, r),
    ensures
        ty_eq(r, vt),
{
    let col = column_name_spec(IndexKind::Dollar, write_args)->0;
    assert(column_write_scope(a, b, base_name, col, vt));
    let (c, w) = choose|c: RType, w: RType|
        #![trigger field_written(c, w, col, vt)]
        ty_eq(c, lookup(a, base_name)->0) && field_written(c, w, col, vt) && rebound(a, b, base_name, w);
    assert(lookup(b, base_name) == Some(w));
    assert(w.mode == Mode::List);
    assert(!may_dispatch_spec(w));
    assert(!definitely_atomic_spec(w));
    let s = w.columns->0;
    assert(seq![col].contains(col)) by {
        assert(seq![col][0] == col);
    }
    let x = field_type(s, col)->0;
    assert(ty_eq(x, vt));
    assert(dollar_result(w, read_args, r));
    assert(ty_eq(r, x));
    law_ty_eq_transitive(r, x, vt);
}

} // verus!

verus! {

/// Reading a name right after assigning it gives the assigned value's
/// type, and reports nothing: inferring `name <- value` and then `name`.
pub proof fn law_read_after_assignment(
    c: Checker,
    s: Scope,
    name: String,
    name_span: Span,
    value: Expr,
    span: Span,
    d1: crate::inference::Deriv,
    r1: RType,
    c1: Checker,
    s1: Scope,
    d2: crate::inference::Deriv,
    r2: RType,
    c2: Checker,
    s2: Scope,
)
    requires
        crate::inference::infer_rel(
            c,
            s,
            Expr::BinOp {
                op: BinOpKind::Assign,
                lhs: Box::new(Expr::Ident { name, span: name_span }),
                rhs: Box::new(value),
                span,
            },
            d1,
            r1,
            c1,
            s1,
        ),
        crate::inference::infer_rel(c1, s1, Expr::Ident { name, span: name_span }, d2, r2, c2, s2),
    ensures
        ty_eq(r2, r1),
        c2 == c1,
        s2 == s1,
{
    let (ds, ts, cs, ss) = crate::inference::parts(d1);
    let (ads, ats, acs, ass) = crate::inference::parts(ds[1]);
    assert(crate::inference::assign_rel(cs[0], ss[0], Expr::Ident { name, span: name_span }, ts[0], ds[1], c1, s1));
    assert(lookup(s1, name@) == Some(ats[0]));
    law_ty_eq_transitive(r2, ats[0], ts[0]);
}

} // verus!

verus! {

/// Whether a mode is one of R's numeric storage modes for arithmetic:
/// logical, integer, double or complex.
pub open spec fn arithmetic_operand_mode(m: Mode) -> bool {
    m == Mode::Logical || m == Mode::Integer || m == Mode::Double || m == Mode::Complex
}

/// The mode R's arithmetic gives two numeric operands: complex if either
/// is complex, else double if either is double, else integer (logical
/// operands count as integer).
pub open spec fn widened_mode(a: Mode, b: Mode) -> Mode {
    if a == Mode::Complex || b == Mode::Complex {
        Mode::Complex
    } else if a == Mode::Double || b == Mode::Double {
        Mode::Double
    } else {
        Mode::Integer
    }
}

/// Arithmetic on two numeric operands widens to the higher of their modes
/// in the order logical < integer < double < complex, never below
/// integer, whichever side each operand is on: `2.5 + 1L` and `1L + 2.5`
/// are both double.
pub proof fn law_arithmetic_widens(a: RType, b: RType)
    requires
        arithmetic_operand_mode(a.mode),
        arithmetic_operand_mode(b.mode),
    ensures
        match crate::binop::arith_spec(a, b) {
            Some(Some((m, l))) => m == widened_mode(a.mode, b.mode),
            _ => false,
        },
        match crate::binop::arith_spec(b, a) {
            Some(Some((m, l))) => m == widened_mode(a.mode, b.mode),
            _ => false,
        },
{
}

/// An arithmetic operator on numeric operands that neither dispatch nor
/// are data frames gives a classless vector of the widened mode, and
/// swapping the operands gives the same mode.
pub proof fn law_arithmetic_operator_mode(op: BinOpKind, a: RType, b: RType, known: bool, r1: RType, r2: RType)
    requires
        arithmetic_spec(op),
        arithmetic_operand_mode(a.mode),
        arithmetic_operand_mode(b.mode),
        !crate::types::class_has(a.class, "data.frame"@),
        !crate::types::class_has(b.class, "data.frame"@),
        binop_result(op, a, b, known, None, r1),
        binop_result(op, b, a, known, None, r2),
    ensures
        r1.mode == widened_mode(a.mode, b.mode),
        r2.mode == r1.mode,
        r1.class.known && r1.class.names@.len() == 0,
{
}

/// Operands of `x` and `y` elements (both at least one) recycle to the
/// longer: arithmetic and comparison on them give `max(x, y)` elements.
pub proof fn law_operands_recycle_to_the_longer(op: BinOpKind, a: RType, b: RType, known: bool, r: RType, x: int, y: int)
    requires
        arithmetic_spec(op) || crate::condition::comparison_spec(op),
        arithmetic_operand_mode(a.mode),
        arithmetic_operand_mode(b.mode),
        !crate::types::class_has(a.class, "data.frame"@),
        !crate::types::class_has(b.class, "data.frame"@),
        binop_result(op, a, b, known, None, r),
        element_count(a.length) == Some(x),
        element_count(b.length) == Some(y),
        x >= 1,
        y >= 1,
    ensures
        element_count(r.length) == Some(if x >= y { x } else { y }),
{
}

/// Comparing two numeric operands gives a logical vector as long as the
/// longer operand, in either order.
pub proof fn law_numeric_comparison_is_logical(op: BinOpKind, a: RType, b: RType, known: bool, r: RType)
    requires
        crate::condition::comparison_spec(op),
        arithmetic_operand_mode(a.mode),
        arithmetic_operand_mode(b.mode),
        !crate::types::class_has(a.class, "data.frame"@),
        !crate::types::class_has(b.class, "data.frame"@),
        binop_result(op, a, b, known, None, r),
    ensures
        r.mode == Mode::Logical,
{
}

/// The number of elements a length stands for, when it fixes one.
pub open spec fn element_count(l: Length) -> Option<int> {
    match l {
        Length::Zero => Some(0),
        Length::One => Some(1),
        Length::Known(k) => Some(k as int),
        _ => None,
    }
}

/// `rep(x, times = t, each = e)` with literal nonnegative counts repeats
/// each of the `n` elements of `x` `e` times and the whole `t` times: its
/// length is `n * t * e`, for a scalar `x` too, and it keeps `x`'s mode.
pub proof fn law_rep_length_is_product(args: Seq<Arg>, ts: Seq<RType>, r: RType, n: int, t: i64, e: i64)
    requires
        args.len() == 3,
        ts.len() == 3,
        crate::construct::found_arg(args, "x"@, 0) == Some(0usize),
        crate::construct::found_arg(args, "times"@, 1) == Some(1usize),
        crate::construct::found_arg(args, "each"@, 2) == Some(2usize),
        crate::construct::literal_int(args[1].value) == Some(t),
        crate::construct::literal_int(args[2].value) == Some(e),
        0 <= t <= usize::MAX,
        0 <= e <= usize::MAX,
        element_count(ts[0].length) == Some(n),
        n * t * e <= usize::MAX,
        crate::construct::rep_spec(args, ts, r),
    ensures
        element_count(r.length) == Some(n * t * e),
        r.mode == ts[0].mode,
{
    assert(0 <= n);
    assert(0 <= t * e) by (nonlinear_arith)
        requires
            0 <= t,
            0 <= e,
    ;
    assert(0 <= n * t * e) by (nonlinear_arith)
        requires
            0 <= n,
            0 <= t,
            0 <= e,
    ;
    if n == 1 {
        assert(n * t * e == t * e) by (nonlinear_arith)
            requires
                n == 1,
        ;
    }
    if n == 0 {
        assert(n * t * e == 0) by (nonlinear_arith)
            requires
                n == 0,
        ;
    }
    let times = crate::construct::rep_count_of(crate::construct::supplied_literal(args, Some(1usize)));
    let each = crate::construct::rep_count_of(crate::construct::supplied_literal(args, Some(2usize)));
    assert(times == Some(t as int));
    assert(each == Some(e as int));
    let len = crate::construct::rep_length(ts[0].length, t as int, e as int);
    assert(crate::construct::rep_result_length(args, ts[0].length) == len);
    let total = n * t * e;
    assert(element_count(crate::result_length::count_length(total)) == Some(total));
    match ts[0].length {
        Length::Zero => {},
        Length::One => {
            assert(crate::construct::saturated(t * e) == total);
        },
        Length::Known(k) => {
            assert(k as int == n);
            assert(crate::construct::saturated(n * t * e) == total);
        },
        _ => {},
    }
    assert(element_count(len) == Some(total));
}

/// Where a mode stands in R's coercion hierarchy for `c()`: raw <
/// logical < integer < double < complex < character < list.
pub open spec fn coercion_place(m: Mode) -> Option<int> {
    match m {
        Mode::Raw => Some(0),
        Mode::Logical => Some(1),
        Mode::Integer => Some(2),
        Mode::Double => Some(3),
        Mode::Complex => Some(4),
        Mode::Character => Some(5),
        Mode::List => Some(6),
        _ => None,
    }
}

/// `c(x, y)` of two atomic or list values has the mode of whichever
/// stands higher in R's coercion hierarchy: `c(1L, 2.5)` is double,
/// `c(TRUE, "a")` is character, in either order.
pub proof fn law_c_follows_coercion_order(args: Seq<Arg>, ts: Seq<RType>, r: RType, args2: Seq<Arg>, ts2: Seq<RType>, r2: RType)
    requires
        ts.len() == 2,
        coercion_place(ts[0].mode) is Some,
        coercion_place(ts[1].mode) is Some,
        crate::signatures::c_result(args, ts, r),
        ts2 == seq![ts[1], ts[0]],
        crate::signatures::c_result(args2, ts2, r2),
    ensures
        r.mode == (if coercion_place(ts[0].mode)->0 >= coercion_place(ts[1].mode)->0 {
            ts[0].mode
        } else {
            ts[1].mode
        }),
        r2.mode == r.mode,
{
    reveal_with_fuel(crate::signatures::c_mode, 3);
    assert(ts.drop_last().drop_last().len() == 0);
    assert(ts2.drop_last().drop_last().len() == 0);
    assert(ts.drop_last().last() == ts[0]);
    assert(ts2.drop_last().last() == ts[1]);
}

/// `c(x, y)` of an `n`-element and an `m`-element value, both written out
/// in the call, has `n + m` elements.
pub proof fn law_c_length_is_sum(args: Seq<Arg>, ts: Seq<RType>, r: RType, n: int, m: int)
    requires
        args.len() == 2,
        ts.len() == 2,
        !crate::signatures::opaque_slot(args[0]),
        !crate::signatures::opaque_slot(args[1]),
        coercion_place(ts[0].mode) is Some,
        coercion_place(ts[1].mode) is Some,
        element_count(ts[0].length) == Some(n),
        element_count(ts[1].length) == Some(m),
        n + m <= usize::MAX,
        crate::signatures::c_result(args, ts, r),
    ensures
        element_count(r.length) == Some(n + m),
{
    reveal_with_fuel(crate::signatures::c_mode, 3);
    reveal_with_fuel(crate::signatures::c_total, 3);
    assert(ts.drop_last().drop_last().len() == 0);
    assert(ts.drop_last().last() == ts[0]);
    assert forall|i: int| 0 <= i < args.len() implies !#[trigger] crate::signatures::opaque_slot(args[i]) by {
        if i == 0 {
        } else {
        }
    }
    assert(crate::signatures::c_total(ts) == Some(n + m));
}

/// Subsetting a vector by a character index gives one element per name:
/// the result has the index's length, whatever the base's length, and
/// keeps the base's mode.
pub proof fn law_character_subset_has_index_length(base: RType, index: RType, e: Expr, r: RType)
    requires
        base.mode != Mode::Null,
        crate::subscript::vector_mode(base.mode),
        index.mode == Mode::Character,
        ty_eq(r, RType { length: crate::subscript::subset_length(base, index, e), columns: None, ..base }),
    ensures
        r.length == index.length,
        r.mode == base.mode,
{
}

/// A single-mode type predicate `is.<mode>` narrows to a scalar of exactly
/// the mode its name spells: the target's mode name is the text after
/// `is.`.
pub proof fn law_mode_predicate_names_its_mode(name: Seq<char>, t: RType)
    requires
        crate::narrow::base_target(name, t),
        name != "is.numeric"@,
        name != "is.data.frame"@,
        name != "is.environment"@,
        name != "is.null"@,
    ensures
        name == "is."@ + crate::modes::mode_text(t.mode),
        t.length == Length::One,
{
    reveal_strlit("is.");
    reveal_strlit("is.double");
    reveal_strlit("is.integer");
    reveal_strlit("is.character");
    reveal_strlit("is.logical");
    reveal_strlit("is.complex");
    reveal_strlit("is.list");
    reveal_strlit("is.function");
    reveal_strlit("is.raw");
    reveal_strlit("double");
    reveal_strlit("integer");
    reveal_strlit("character");
    reveal_strlit("logical");
    reveal_strlit("complex");
    reveal_strlit("list");
    reveal_strlit("function");
    reveal_strlit("raw");
    assert("is.double"@ =~= "is."@ + "double"@);
    assert("is.integer"@ =~= "is."@ + "integer"@);
    assert("is.character"@ =~= "is."@ + "character"@);
    assert("is.logical"@ =~= "is."@ + "logical"@);
    assert("is.complex"@ =~= "is."@ + "complex"@);
    assert("is.list"@ =~= "is."@ + "list"@);
    assert("is.function"@ =~= "is."@ + "function"@);
    assert("is.raw"@ =~= "is."@ + "raw"@);
}

} // verus!
