//! Calls of stub functions: RY090 and RY091 over the argument match, and
//! RY092 for an argument whose inferred type provably contradicts the
//! type the stub declares for its formal.
use vstd::prelude::*;
use crate::ast::{Arg, Span};
use crate::checker::{Checker, Severity, UserFn, defines, diag_views, formal_names, formal_required, missing_reports, reports_added, same_state, tag_text, unknown_reports};
use crate::matching::{ArgumentMatch, arg_tags, match_spec};
use crate::modes::{expected_type_label, incompatible_spec, label_spec, mode_name, mode_text, types_provably_incompatible};
use crate::types::{Mode, RType, has_known_class_spec};
use crate::typeshed::{FunctionSig, ParamSpec, match_params, spec_names};

verus! {

/// Whether a stub declares enough of a signature to report unknown
/// named arguments: some formal is required, has a default or a type.
pub open spec fn declares_formals(params: Seq<ParamSpec>) -> bool {
    exists|j: int| 0 <= j < params.len() && #[trigger] declared(params[j])
}

/// Whether a formal is required, has a default or a declared type.
pub open spec fn declared(p: ParamSpec) -> bool {
    p.required || p.default is Some || p.type_ is Some
}

/// Whether a generic may dispatch on an argument of type `t`: it has a
/// known class, or is `NULL`.
pub open spec fn may_dispatch_on(generic: bool, t: RType) -> bool {
    generic && (has_known_class_spec(t.class) || t.mode == Mode::Null)
}

pub open spec fn ry092_message(formal: Seq<char>, function_name: Seq<char>, actual: Mode, expected: RType) -> Seq<char> {
    "argument `"@ + formal + "` to `"@ + function_name + "` is `"@ + mode_text(actual) + "`, expected "@ + label_spec(expected)
}

/// The RY092 finding for argument `i`, if any.
pub open spec fn type_report_at(
    function_name: Seq<char>,
    params: Seq<ParamSpec>,
    args: Seq<Arg>,
    arg_types: Seq<RType>,
    m: ArgumentMatch,
    expected: Seq<Option<RType>>,
    generic: bool,
    i: int,
) -> Seq<(Severity, Span, Seq<char>, Seq<char>)> {
    match m.param_for_arg@[i] {
        Some(p) => if p < params.len() && p < expected.len() && i < arg_types.len() {
            match expected[p as int] {
                Some(e) => if !may_dispatch_on(generic, arg_types[i]) && !params[p as int].demand_only && incompatible_spec(
                    arg_types[i],
                    e,
                ) {
                    seq![
                        (
                            Severity::Error,
                            args[i].span,
                            "RY092"@,
                            ry092_message(params[p as int].name@, function_name, arg_types[i].mode, e),
                        ),
                    ]
                } else {
                    seq![]
                },
                None => seq![],
            }
        } else {
            seq![]
        },
        None => seq![],
    }
}

/// The RY092 findings of the first `n` arguments, in order.
pub open spec fn type_reports(
    function_name: Seq<char>,
    params: Seq<ParamSpec>,
    args: Seq<Arg>,
    arg_types: Seq<RType>,
    m: ArgumentMatch,
    expected: Seq<Option<RType>>,
    generic: bool,
    n: int,
) -> Seq<(Severity, Span, Seq<char>, Seq<char>)>
    decreases n,
{
    if n <= 0 {
        seq![]
    } else {
        type_reports(function_name, params, args, arg_types, m, expected, generic, n - 1) + type_report_at(
            function_name,
            params,
            args,
            arg_types,
            m,
            expected,
            generic,
            n - 1,
        )
    }
}

/// The findings of a call of a stub function under the match `m`.
pub open spec fn typeshed_call_reports(
    source: Seq<char>,
    function_name: Seq<char>,
    params: Seq<ParamSpec>,
    args: Seq<Arg>,
    arg_types: Seq<RType>,
    m: ArgumentMatch,
    expected: Seq<Option<RType>>,
    generic: bool,
    call_span: Span,
) -> Seq<(Severity, Span, Seq<char>, Seq<char>)> {
    (if !declares_formals(params) || m.dots is Some {
        seq![]
    } else {
        unknown_reports(source, function_name, formal_names(params), args, m.unmatched_named@, m.unmatched_named@.len() as int)
    }) + missing_reports(source, function_name, formal_names(params), formal_required(params), args, m, call_span, params.len() as int)
        + type_reports(function_name, params, args, arg_types, m, expected, generic, args.len() as int)
}

/// RY090 and RY091 for a call of the file's function `f` under the
/// argument match `m`.
pub open spec fn user_call_added(
    source: Seq<char>,
    function_name: Seq<char>,
    f: UserFn,
    args: Seq<Arg>,
    call_span: Span,
    m: ArgumentMatch,
) -> Seq<(Severity, Span, Seq<char>, Seq<char>)> {
    (if m.dots is Some {
        seq![]
    } else {
        unknown_reports(source, function_name, formal_names(f.params@), args, m.unmatched_named@, m.unmatched_named@.len() as int)
    }) + missing_reports(
        source,
        function_name,
        formal_names(f.params@),
        formal_required(f.params@),
        args,
        m,
        call_span,
        f.params@.len() as int,
    )
}

/// `b` is `a` after RY090 and RY091 for a call of the file's function `f`.
pub open spec fn user_call_checked(a: Checker, b: Checker, function_name: Seq<char>, f: UserFn, args: Seq<Arg>, call_span: Span) -> bool {
    exists|m: ArgumentMatch|
        match_spec(formal_names(f.params@), arg_tags(args), m) && reports_added(
            a,
            b,
            user_call_added(a.source@, function_name, f, args, call_span, m),
        )
}

/// `b` is `a` after the argument checks of a call of a stub function.
pub open spec fn typeshed_call_checked(
    a: Checker,
    b: Checker,
    function_name: Seq<char>,
    sig: FunctionSig,
    args: Seq<Arg>,
    arg_types: Seq<RType>,
    expected: Seq<Option<RType>>,
    generic: bool,
    call_span: Span,
) -> bool {
    exists|m: ArgumentMatch|
        match_spec(spec_names(sig.params@), arg_tags(args), m) && reports_added(
            a,
            b,
            typeshed_call_reports(a.source@, function_name, sig.params@, args, arg_types, m, expected, generic, call_span),
        )
}

/// Whether a call's arguments are checked against the stub: the file's
/// own function is not the callee under validation, the callee is not a
/// lexical callable, and without validation the file defines no function
/// of that name.
pub open spec fn checks_against_stub(validate: bool, user_defined: bool, defined: bool, lexical_callable: bool) -> bool {
    !lexical_callable && if validate {
        !user_defined
    } else {
        !defined
    }
}

fn declares_any_formal(params: &[ParamSpec]) -> (r: bool)
    ensures
        r == declares_formals(params@),
{
    let mut j: usize = 0;
    while j < params.len()
        invariant
            j <= params@.len(),
            forall|k: int| 0 <= k < j ==> !#[trigger] declared(params@[k]),
        decreases params.len() - j,
    {
        if params[j].required || params[j].default.is_some() || params[j].type_.is_some() {
            assert(declared(params@[j as int]));
            return true;
        }
        j = j + 1;
    }
    false
}

impl Checker {
    /// RY090 and RY091 for a call of a stub function, then RY092 for each
    /// argument whose inferred type provably contradicts its formal's
    /// declared type. `expected[p]` is the type the stub declares for
    /// formal `p`, as the checker reads it; `generic` says whether the
    /// function is a generic that may dispatch on its argument's class,
    /// which silences RY092 for classed and `NULL` arguments.
    pub fn check_typeshed_call_arguments(
        &mut self,
        function_name: &str,
        signature: &FunctionSig,
        args: &[Arg],
        arg_types: &[RType],
        call_span: Span,
        expected: &Vec<Option<RType>>,
        generic: bool,
    )
        requires
            forall|i: int, j: int|
                0 <= i < args@.len() && 0 <= j < signature.params@.len() ==> tag_text(#[trigger] args@[i]).len()
                    + (#[trigger] signature.params@[j]).name@.len() <= usize::MAX,
        ensures
            exists|m: ArgumentMatch|
                match_spec(spec_names(signature.params@), arg_tags(args@), m) && reports_added(
                    *old(self),
                    *final(self),
                    typeshed_call_reports(
                        old(self).source@,
                        function_name@,
                        signature.params@,
                        args@,
                        arg_types@,
                        m,
                        expected@,
                        generic,
                        call_span,
                    ),
                ),
    {
        let ghost c0 = *self;
        let params = signature.params.as_slice();
        let bindings = match_params(params, args);
        proof {
            assert(spec_names(params@) =~= formal_names(params@));
            assert forall|k: int| 0 <= k < bindings.unmatched_named@.len() implies #[trigger] bindings.unmatched_named@[k] < args@.len() by {
                crate::matching::lemma_unmatched_in_range(formal_names(params@), arg_tags(args@), bindings, k);
            }
        }
        let report_unknown = declares_any_formal(params);
        self.check_call_arity(function_name, params, args, &bindings, report_unknown, call_span);
        let ghost c1 = *self;
        let ghost arity = diag_views(c1.diagnostics@);
        let mut i: usize = 0;
        while i < args.len()
            invariant
                i <= args@.len(),
                bindings.param_for_arg@.len() == args@.len(),
                same_state(c0, *self),
                self.discarding == c0.discarding,
                diag_views(self.diagnostics@) == arity + (if c0.discarding {
                    seq![]
                } else {
                    type_reports(function_name@, params@, args@, arg_types@, bindings, expected@, generic, i as int)
                }),
            decreases args.len() - i,
        {
            let ghost before = diag_views(self.diagnostics@);
            match bindings.param_for_arg[i] {
                Some(p) => {
                    if p < params.len() && p < expected.len() && i < arg_types.len() {
                        if let Some(e) = &expected[p] {
                            let actual = &arg_types[i];
                            let dispatches = generic && (actual.class.has_known_class() || actual.mode == Mode::Null);
                            if !dispatches && !params[p].demand_only && types_provably_incompatible(actual, e) {
                                let mut message = String::from_str("argument `");
                                message.append(params[p].name.as_str());
                                message.append("` to `");
                                message.append(function_name);
                                message.append("` is `");
                                message.append(mode_name(actual.mode));
                                message.append("`, expected ");
                                let label = expected_type_label(e);
                                message.append(label.as_str());
                                self.emit(Severity::Error, args[i].span, "RY092", message);
                            }
                        }
                    }
                },
                None => {},
            }
            proof {
                assert(diag_views(self.diagnostics@) =~= before + (if c0.discarding {
                    seq![]
                } else {
                    type_report_at(function_name@, params@, args@, arg_types@, bindings, expected@, generic, i as int)
                }));
            }
            i = i + 1;
        }
        proof {
            assert(diag_views(self.diagnostics@) =~= diag_views(c0.diagnostics@) + (if c0.discarding {
                seq![]
            } else {
                typeshed_call_reports(c0.source@, function_name@, params@, args@, arg_types@, bindings, expected@, generic, call_span)
            }));
        }
    }

    /// The argument checks of a call: with validation of the file's own
    /// functions, a call of one is checked against its definition; a call
    /// of a stub function is checked against the stub unless a lexical
    /// callable or, without validation, a definition of that name takes
    /// its place.
    pub fn check_call_arguments(
        &mut self,
        lookup_name: &str,
        user_function: Option<&UserFn>,
        resolved_sig: Option<&FunctionSig>,
        lexical_callable: bool,
        args: &[Arg],
        arg_types: &[RType],
        expected: &Vec<Option<RType>>,
        generic: bool,
        span: Span,
    )
        requires
            user_function matches Some(f) ==> forall|i: int, j: int|
                0 <= i < args@.len() && 0 <= j < f.params@.len() ==> tag_text(#[trigger] args@[i]).len()
                    + (#[trigger] f.params@[j]).name@.len() <= usize::MAX,
            resolved_sig matches Some(sig) ==> forall|i: int, j: int|
                0 <= i < args@.len() && 0 <= j < sig.params@.len() ==> tag_text(#[trigger] args@[i]).len()
                    + (#[trigger] sig.params@[j]).name@.len() <= usize::MAX,
        ensures
            if old(self).validate_user_call_arguments && user_function is Some {
                user_call_checked(*old(self), *final(self), lookup_name@, *user_function->0, args@, span)
            } else if resolved_sig is Some && checks_against_stub(
                old(self).validate_user_call_arguments,
                user_function is Some,
                defines(old(self).fn_table@, lookup_name@),
                lexical_callable,
            ) {
                typeshed_call_checked(
                    *old(self),
                    *final(self),
                    lookup_name@,
                    *resolved_sig->0,
                    args@,
                    arg_types@,
                    expected@,
                    generic,
                    span,
                )
            } else {
                *final(self) == *old(self)
            },
    {
        if self.validate_user_call_arguments {
            if let Some(f) = user_function {
                self.check_user_call_arguments(lookup_name, f, args, span);
                return;
            }
            if !lexical_callable {
                if let Some(sig) = resolved_sig {
                    self.check_typeshed_call_arguments(lookup_name, sig, args, arg_types, span, expected, generic);
                }
            }
        } else if !lexical_callable && !crate::checker::table_defines(&self.fn_table, lookup_name) {
            if let Some(sig) = resolved_sig {
                self.check_typeshed_call_arguments(lookup_name, sig, args, arg_types, span, expected, generic);
            }
        }
    }
}

} // verus!
