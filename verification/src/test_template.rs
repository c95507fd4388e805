//! Test-template results (`ifelse`) and RY106: a result built from the
//! `test` vector stays logical when the test is empty or all `NA`, even
//! when every value branch has another mode.
use vstd::prelude::*;
use crate::ast::{Arg, Expr, Span, UnaryOpKind};
use crate::callsites::{atomic_branch_spec, definitely_na_spec, is_atomic_branch_mode, shared_branch_mode, shared_mode_spec, test_definitely_na};
use crate::checker::{Checker, Severity, reports_added};
use crate::matching::{arg_tags, match_spec};
use crate::modes::{mode_name, mode_text};
use crate::result_length::{bound_to, lemma_bound_to};
use crate::scope::{Scope, has_name, names_contain};
use crate::subscript::{bare_name, bare_spec, listed};
use crate::text::str_eq;
use crate::types::{Length, Mode, RType, is_plain_type, may_be_empty_spec, union_of};
use crate::typeshed::{ParamSpec, bound_argument_index_matched, match_params, spec_names};

verus! {

/// A stub's test-template rule: the result starts as the value of the
/// `test` formal and takes the `values` formals' elements at the positions
/// the test selects.
#[derive(Debug)]
pub struct TestTemplateRule {
    pub test: String,
    pub values: Vec<String>,
}

/// What RY106 needs to know about one test-template call.
#[derive(Debug)]
pub struct TestTemplateSite {
    pub lookup_name: String,
    /// The test is an empty vector or all `NA` by construction.
    pub definite_collapse: bool,
    pub definitely_na: bool,
    /// The test may be empty at runtime.
    pub may_be_empty: bool,
    /// A value branch is a typed `NA` constant of the shared branch mode.
    pub typed_na_branch: bool,
    /// The non-logical atomic mode every value branch has, if any.
    pub branch_mode: Option<Mode>,
}

/// Whether `e` names a binding whose pinned type proves nothing about
/// every caller: a parameter, a parameter default, or a narrowed binding.
pub open spec fn open_world_spec(e: Expr, scope: Scope) -> bool {
    match e {
        Expr::Ident { name, .. } => has_name(scope.parameters@, name@) || has_name(
            scope.default_parameters@,
            name@,
        ) || has_name(scope.narrowed_bindings@, name@),
        _ => false,
    }
}

/// Whether a literal, with leading minus signs folded, is zero.
pub open spec fn zero_literal(e: Expr) -> bool
    decreases e,
{
    match e {
        Expr::Integer(n, _) => n == 0,
        Expr::Double(d, _) => d.whole == Some(0i64),
        Expr::UnaryOp { op: UnaryOpKind::Neg, expr, .. } => zero_literal(*expr),
        _ => false,
    }
}

/// The base constructors of atomic vectors.
pub open spec fn vector_constructors() -> Seq<Seq<char>> {
    seq!["logical"@, "integer"@, "double"@, "numeric"@, "complex"@, "character"@, "raw"@]
}

/// Whether a lone argument of a vector constructor asks for length zero:
/// unnamed or named `length`/`length.out`, and a literal zero.
pub open spec fn zero_length_arg(a: Arg) -> bool {
    &&& match a.name {
        None => true,
        Some(n) => n@ == "length"@ || n@ == "length.out"@,
    }
    &&& zero_literal(a.value)
}

/// Whether a test is an empty vector by construction: `NULL`, or a base
/// vector constructor called with no argument or a literal zero length.
/// `callee_is_base` says whether the constructor's name resolves to base.
pub open spec fn definitely_empty_spec(e: Expr, callee_is_base: bool) -> bool {
    match e {
        Expr::Null(..) => true,
        Expr::Call { func, args, .. } => match *func {
            Expr::Ident { name, .. } => {
                &&& listed(vector_constructors(), bare_spec(name@))
                &&& callee_is_base
                &&& (args@.len() == 0 || (args@.len() == 1 && zero_length_arg(args@[0])))
            },
            _ => false,
        },
        _ => false,
    }
}

/// The RY106 message.
pub open spec fn collapse_message(name: Seq<char>, all_na: bool, m: Mode) -> Seq<char> {
    "`"@ + name + "()` builds its result from `test`, so "@ + (if all_na {
        "an all-`NA` test"@
    } else {
        "an empty test"@
    }) + " leaves a logical result even though the branches are both "@ + mode_text(m)
        + "; use a typed alternative such as `dplyr::if_else()` when the result must be "@
        + mode_text(m)
}

/// The RY106 report of a site: when the branches share a non-logical
/// atomic mode and the collapse is definite, or possible with a typed
/// `NA` branch.
pub open spec fn collapse_reports(site: TestTemplateSite, span: Span) -> Seq<(Severity, Span, Seq<char>, Seq<char>)> {
    match site.branch_mode {
        None => seq![],
        Some(m) => if !site.definite_collapse && !(site.may_be_empty && site.typed_na_branch) {
            seq![]
        } else {
            seq![(Severity::Warning, span, "RY106"@, collapse_message(site.lookup_name@, site.definitely_na, m))]
        },
    }
}

/// Whether a literal argument value is zero.
fn is_zero_literal(e: &Expr) -> (r: bool)
    ensures
        r == zero_literal(*e),
    decreases e,
{
    match e {
        Expr::Integer(n, _) => *n == 0,
        Expr::Double(d, _) => d.whole == Some(0i64),
        Expr::UnaryOp { op: UnaryOpKind::Neg, expr, .. } => is_zero_literal(expr),
        _ => false,
    }
}

/// Build the RY106 message text.
fn collapse_message_text(name: &str, all_na: bool, m: Mode) -> (r: String)
    ensures
        r@ == collapse_message(name@, all_na, m),
{
    let mut s = String::from_str("`");
    s.append(name);
    s.append("()` builds its result from `test`, so ");
    s.append(if all_na { "an all-`NA` test" } else { "an empty test" });
    s.append(" leaves a logical result even though the branches are both ");
    s.append(mode_name(m));
    s.append("; use a typed alternative such as `dplyr::if_else()` when the result must be ");
    s.append(mode_name(m));
    s
}

/// Which argument each value formal binds, in order, when all are bound.
pub open spec fn value_bindings(params: Seq<ParamSpec>, args: Seq<Arg>, values: Seq<String>) -> Option<Seq<int>> {
    if forall|k: int| 0 <= k < values.len() ==> #[trigger] bound_to(params, args, values[k]@) is Some {
        Some(Seq::new(values.len(), |k: int| bound_to(params, args, values[k]@)->0))
    } else {
        None
    }
}

/// The facts of a test-template call whose test and values are bound and
/// typed.
pub open spec fn site_spec(
    lookup_name: Seq<char>,
    args: Seq<Arg>,
    arg_types: Seq<RType>,
    scope: Scope,
    ti: int,
    vis: Seq<int>,
    callee_is_base: bool,
    site: TestTemplateSite,
) -> bool {
    let test = args[ti].value;
    let value_refs = Seq::new(vis.len(), |k: int| &arg_types[vis[k]]);
    &&& site.lookup_name@ == lookup_name
    &&& site.definitely_na == definitely_na_spec(test)
    &&& site.definite_collapse == (definitely_na_spec(test) || definitely_empty_spec(test, callee_is_base))
    &&& site.may_be_empty == (may_be_empty_spec(arg_types[ti].length) || open_world_spec(test, scope))
    &&& site.branch_mode == shared_mode_spec(value_refs)
    &&& site.typed_na_branch == exists|k: int|
        0 <= k < vis.len() && #[trigger] typed_na(args[vis[k]].value, site.branch_mode)
}

/// Whether a value branch is a typed `NA` constant of mode `m`.
pub open spec fn typed_na(e: Expr, m: Option<Mode>) -> bool {
    match e {
        Expr::Na(t, _) => m == Some(t.mode),
        _ => false,
    }
}

/// The result type of a test-template call, given the type `plain` the
/// stub's ordinary rule gives: unchanged when the test is certainly
/// nonempty; the logical test itself when the collapse is definite; the
/// union of a logical vector and `plain` when the test may be empty, the
/// result is atomic, and the emptiness is not only an inferred zero on a
/// computed expression.
pub open spec fn template_result(site: TestTemplateSite, test: Expr, test_ty: RType, scope: Scope, plain: RType, r: RType) -> bool {
    if !site.may_be_empty && !site.definite_collapse {
        r == plain
    } else if site.definite_collapse {
        r == (RType { mode: Mode::Logical, ..plain })
    } else if atomic_branch_spec(plain.mode) && !(test_ty.length == Length::Zero && !open_world_spec(test, scope)) {
        &&& r.members is Some
        &&& r.members->0@.len() == 2
        &&& is_plain_type(r.members->0@[0], Mode::Logical, plain.length)
        &&& union_of(seq![r.members->0@[0], plain], r)
    } else {
        r == plain
    }
}

/// Whether every index of `vis` is below `n`: each value has a type.
pub open spec fn all_typed(vis: Seq<int>, n: int) -> bool {
    forall|k: int| 0 <= k < vis.len() ==> #[trigger] vis[k] < n
}

/// What the test-template stage does (see `infer_test_template_call`):
/// nothing, returning `None`, unless there is a rule whose test and value
/// formals are all bound to typed arguments; then the RY106 report of the
/// call's facts and the result `template_result` gives.
pub open spec fn template_call_spec(
    before: Checker,
    after: Checker,
    lookup_name: Seq<char>,
    rule: Option<&TestTemplateRule>,
    params: Seq<ParamSpec>,
    args: Seq<Arg>,
    arg_types: Seq<RType>,
    scope: Scope,
    span: Span,
    plain_result: RType,
    test_callee_is_base: bool,
    r: Option<RType>,
) -> bool {
    match rule {
        None => r is None && reports_added(before, after, seq![]),
        Some(rule) => match bound_to(params, args, rule.test@) {
            None => r is None && reports_added(before, after, seq![]),
            Some(ti) => match value_bindings(params, args, rule.values@) {
                None => r is None && reports_added(before, after, seq![]),
                Some(vis) => if ti < arg_types.len() && all_typed(vis, arg_types.len() as int) {
                    exists|site: TestTemplateSite|
                        {
                            &&& #[trigger] site_spec(lookup_name, args, arg_types, scope, ti, vis, test_callee_is_base, site)
                            &&& reports_added(before, after, collapse_reports(site, span))
                            &&& r matches Some(t) && template_result(site, args[ti].value, arg_types[ti], scope, plain_result, t)
                        }
                } else {
                    r is None && reports_added(before, after, seq![])
                },
            },
        },
    }
}

impl Checker {
    /// Whether `expr` names a parameter, parameter default, or narrowed
    /// binding, whose pinned type is no emptiness proof.
    pub fn test_binding_is_open_world(&self, expr: &Expr, scope: &Scope) -> (r: bool)
        ensures
            r == open_world_spec(*expr, *scope),
    {
        match expr {
            Expr::Ident { name, .. } => names_contain(&scope.parameters, name.as_str()) || names_contain(
                &scope.default_parameters,
                name.as_str(),
            ) || names_contain(&scope.narrowed_bindings, name.as_str()),
            _ => false,
        }
    }

    /// Whether the test may be empty at runtime: its length admits it, or
    /// it names an open-world binding.
    pub fn test_may_be_empty(&self, expr: &Expr, ty: &RType, scope: &Scope) -> (r: bool)
        ensures
            r == (may_be_empty_spec(ty.length) || open_world_spec(*expr, *scope)),
    {
        ty.length.may_be_empty() || self.test_binding_is_open_world(expr, scope)
    }

    /// Whether the test is an empty vector by construction; a constructor
    /// counts only when its name resolves to base (`callee_is_base`).
    pub fn test_definitely_empty(&self, expr: &Expr, callee_is_base: bool) -> (r: bool)
        ensures
            r == definitely_empty_spec(*expr, callee_is_base),
    {
        let (func, args) = match expr {
            Expr::Call { func, args, .. } => (func, args),
            Expr::Null(..) => return true,
            _ => return false,
        };
        let name = match &**func {
            Expr::Ident { name, .. } => name,
            _ => return false,
        };
        let bare = bare_name(name.as_str());
        let b = bare.as_str();
        let constructor = str_eq(b, "logical") || str_eq(b, "integer") || str_eq(b, "double") || str_eq(
            b,
            "numeric",
        ) || str_eq(b, "complex") || str_eq(b, "character") || str_eq(b, "raw");
        proof {
            if listed(vector_constructors(), bare@) {
                let k = choose|k: int| 0 <= k < vector_constructors().len() && #[trigger] vector_constructors()[k] == bare@;
                assert(k == 0 || k == 1 || k == 2 || k == 3 || k == 4 || k == 5 || k == 6);
            }
            if constructor {
                if b@ == "logical"@ { assert(vector_constructors()[0] == bare@); }
                if b@ == "integer"@ { assert(vector_constructors()[1] == bare@); }
                if b@ == "double"@ { assert(vector_constructors()[2] == bare@); }
                if b@ == "numeric"@ { assert(vector_constructors()[3] == bare@); }
                if b@ == "complex"@ { assert(vector_constructors()[4] == bare@); }
                if b@ == "character"@ { assert(vector_constructors()[5] == bare@); }
                if b@ == "raw"@ { assert(vector_constructors()[6] == bare@); }
            }
        }
        if !constructor {
            return false;
        }
        if !callee_is_base {
            return false;
        }
        if args.len() == 0 {
            return true;
        }
        if args.len() != 1 {
            return false;
        }
        let unnamed_or_length = match &args[0].name {
            None => true,
            Some(n) => str_eq(n.as_str(), "length") || str_eq(n.as_str(), "length.out"),
        };
        unnamed_or_length && is_zero_literal(&args[0].value)
    }

    /// RY106: the result can collapse to logical although the value
    /// branches agree on another atomic mode.
    pub fn check_test_template_mode_collapse(&mut self, site: &TestTemplateSite, span: Span)
        ensures
            reports_added(*old(self), *final(self), collapse_reports(*site, span)),
    {
        let ghost c0 = *self;
        assert(crate::checker::diag_views(self.diagnostics@) =~= crate::checker::diag_views(c0.diagnostics@) + seq![]);
        let branch_mode = match site.branch_mode {
            Some(m) => m,
            None => return,
        };
        if !site.definite_collapse && !(site.may_be_empty && site.typed_na_branch) {
            return;
        }
        let message = collapse_message_text(site.lookup_name.as_str(), site.definitely_na, branch_mode);
        self.emit(Severity::Warning, span, "RY106", message);
    }

    /// The test-template stage of a call: when the stub declares a
    /// test-template rule and the test and every value formal are bound to
    /// typed arguments, report RY106 as `check_test_template_mode_collapse`
    /// says and return the result type `template_result` gives from
    /// `plain_result`, the type the stub's ordinary rule gives. Otherwise
    /// `None`, and nothing is reported. `test_callee_is_base` says whether
    /// the test's constructor, if it calls one, resolves to base.
    pub fn infer_test_template_call(
        &mut self,
        lookup_name: &str,
        rule: Option<&TestTemplateRule>,
        params: &[ParamSpec],
        args: &[Arg],
        arg_types: &[RType],
        scope: &Scope,
        span: Span,
        plain_result: RType,
        test_callee_is_base: bool,
    ) -> (r: Option<RType>)
        ensures
            template_call_spec(
                *old(self),
                *final(self),
                lookup_name@,
                rule,
                params@,
                args@,
                arg_types@,
                *scope,
                span,
                plain_result,
                test_callee_is_base,
                r,
            ),
    {
        let ghost c0 = *self;
        assert(crate::checker::diag_views(self.diagnostics@) =~= crate::checker::diag_views(c0.diagnostics@) + seq![]);
        let rl = match rule {
            Some(r) => r,
            None => return None,
        };
        let bindings = match_params(params, args);
        proof {
            lemma_bound_to(params@, args@, bindings, rl.test@);
        }
        let test_index = match bound_argument_index_matched(params, &bindings, rl.test.as_str()) {
            Some(i) => i,
            None => return None,
        };
        let mut value_indices: Vec<usize> = Vec::new();
        let mut k: usize = 0;
        while k < rl.values.len()
            invariant
                k <= rl.values@.len(),
                rule == Some(rl),
                *old(self) == c0,
                bound_to(params@, args@, rl.test@) == Some(test_index as int),
                *self == c0,
                crate::checker::diag_views(self.diagnostics@) == crate::checker::diag_views(c0.diagnostics@) + seq![],
                match_spec(spec_names(params@), arg_tags(args@), bindings),
                value_indices@.len() == k,
                forall|j: int| 0 <= j < k ==> bound_to(params@, args@, rl.values@[j]@) == Some(#[trigger] value_indices@[j] as int),
                forall|j: int| 0 <= j < k ==> #[trigger] value_indices@[j] < args@.len(),
            decreases rl.values.len() - k,
        {
            proof {
                lemma_bound_to(params@, args@, bindings, rl.values@[k as int]@);
            }
            match bound_argument_index_matched(params, &bindings, rl.values[k].as_str()) {
                Some(i) => value_indices.push(i),
                None => {
                    assert(!(bound_to(params@, args@, rl.values@[k as int]@) is Some));
                    assert(value_bindings(params@, args@, rl.values@) is None);
                    return None;
                },
            }
            k = k + 1;
        }
        let ghost vis = value_bindings(params@, args@, rl.values@)->0;
        proof {
            assert forall|j: int| 0 <= j < rl.values@.len() implies #[trigger] bound_to(params@, args@, rl.values@[j]@) is Some by {
                assert(bound_to(params@, args@, rl.values@[j]@) == Some(value_indices@[j] as int));
            }
            assert(value_bindings(params@, args@, rl.values@) is Some);
            assert forall|j: int| 0 <= j < vis.len() implies vis[j] == value_indices@[j] as int by {
                assert(bound_to(params@, args@, rl.values@[j]@) == Some(value_indices@[j] as int));
            }
        }
        if test_index >= arg_types.len() {
            return None;
        }
        let mut value_types: Vec<&RType> = Vec::new();
        let mut j: usize = 0;
        while j < value_indices.len()
            invariant
                j <= value_indices@.len(),
                rule == Some(rl),
                *old(self) == c0,
                bound_to(params@, args@, rl.test@) == Some(test_index as int),
                value_bindings(params@, args@, rl.values@) == Some(vis),
                test_index < arg_types@.len(),
                *self == c0,
                crate::checker::diag_views(self.diagnostics@) == crate::checker::diag_views(c0.diagnostics@) + seq![],
                vis.len() == value_indices@.len(),
                forall|y: int| 0 <= y < vis.len() ==> vis[y] == #[trigger] value_indices@[y] as int,
                value_types@.len() == j,
                forall|x: int| 0 <= x < j ==> *(#[trigger] value_types@[x]) == arg_types@[value_indices@[x] as int],
                forall|x: int| 0 <= x < j ==> #[trigger] value_indices@[x] < arg_types@.len(),
            decreases value_indices.len() - j,
        {
            let vi = value_indices[j];
            if vi >= arg_types.len() {
                assert(!(vis[j as int] < arg_types@.len()));
                assert(!all_typed(vis, arg_types@.len() as int));
                assert(reports_added(c0, *self, seq![]));
                return None;
            }
            value_types.push(&arg_types[vi]);
            j = j + 1;
        }
        let test_expr = &args[test_index].value;
        let test_ty = &arg_types[test_index];
        let may_be_empty = self.test_may_be_empty(test_expr, test_ty, scope);
        let definitely_na = test_definitely_na(test_expr);
        let definitely_empty = self.test_definitely_empty(test_expr, test_callee_is_base);
        let definite_collapse = definitely_na || definitely_empty;
        let branch_mode = shared_branch_mode(value_types.as_slice());
        let mut typed_na_branch = false;
        let mut x: usize = 0;
        while x < value_indices.len()
            invariant
                x <= value_indices@.len(),
                rule == Some(rl),
                *old(self) == c0,
                *self == c0,
                crate::checker::diag_views(self.diagnostics@) == crate::checker::diag_views(c0.diagnostics@) + seq![],
                forall|y: int| 0 <= y < value_indices@.len() ==> #[trigger] value_indices@[y] < args@.len(),
                typed_na_branch == exists|y: int| 0 <= y < x && #[trigger] typed_na(args@[value_indices@[y] as int].value, branch_mode),
            decreases value_indices.len() - x,
        {
            let hit = match &args[value_indices[x]].value {
                Expr::Na(t, _) => branch_mode == Some(t.mode),
                _ => false,
            };
            assert(hit == typed_na(args@[value_indices@[x as int] as int].value, branch_mode));
            if hit {
                typed_na_branch = true;
            }
            x = x + 1;
        }
        let site = TestTemplateSite {
            lookup_name: lookup_name.to_string(),
            definite_collapse,
            definitely_na,
            may_be_empty,
            typed_na_branch,
            branch_mode,
        };
        proof {
            let value_refs = Seq::new(vis.len(), |k: int| &arg_types@[vis[k]]);
            assert(value_refs =~= value_types@);
            assert(site.branch_mode == shared_mode_spec(value_refs));
            assert(site.lookup_name@ == lookup_name@);
            if site.typed_na_branch {
                let y = choose|y: int| 0 <= y < value_indices@.len() && #[trigger] typed_na(args@[value_indices@[y] as int].value, branch_mode);
                assert(typed_na(args@[vis[y]].value, site.branch_mode));
            }
            if exists|y: int| 0 <= y < vis.len() && #[trigger] typed_na(args@[vis[y]].value, site.branch_mode) {
                let y = choose|y: int| 0 <= y < vis.len() && #[trigger] typed_na(args@[vis[y]].value, site.branch_mode);
                assert(typed_na(args@[value_indices@[y] as int].value, branch_mode));
            }
            assert(site_spec(lookup_name@, args@, arg_types@, *scope, test_index as int, vis, test_callee_is_base, site));
        }
        self.check_test_template_mode_collapse(&site, span);
        let result = plain_result;
        if !may_be_empty && !definite_collapse {
            return Some(result);
        }
        if definite_collapse {
            return Some(RType { mode: Mode::Logical, ..result });
        }
        if is_atomic_branch_mode(result.mode) && !(test_ty.length == Length::Zero && !self.test_binding_is_open_world(test_expr, scope)) {
            let collapsed = RType::new(Mode::Logical, result.length);
            let ghost c = collapsed;
            let ghost p = result;
            let mut members: Vec<RType> = Vec::new();
            members.push(collapsed);
            members.push(result);
            assert(members@ =~= seq![c, p]);
            let u = RType::union(members);
            assert(u.members->0@[0] == c);
            assert(union_of(seq![u.members->0@[0], plain_result], u));
            return Some(u);
        }
        Some(result)
    }
}

} // verus!
