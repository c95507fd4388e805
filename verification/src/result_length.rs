//! Result lengths that stub signatures declare by rule rather than as a
//! fixed length: the value of a size argument, zero when a given argument
//! is empty, or the recycled length of the value arguments.
use vstd::prelude::*;
use crate::ast::{Arg, Expr, UnaryOpKind};
use crate::literals::{longest_arg_length, longest_spec};
use crate::matching::{ArgumentMatch, arg_tags, dots_from, dots_text, is_dots, match_spec, opt_int, positional_pass};
use crate::scope::{has_name, names_contain};
use crate::types::{Length, Mode, RType, copy_type};
use crate::typeshed::{
    ParamSpec, bound_actual, bound_argument_index_matched, bound_index_spec, find_formal,
    formal_index, lemma_first_binding_matches, match_params, spec_names,
};

verus! {

/// A stub's length specification, once parsed: a literal count, or a
/// length taken from the arguments at the call.
#[derive(Clone, Copy, PartialEq, Eq, Debug, Structural)]
pub enum JsonLength {
    Known(usize),
    Arg0,
    Arg1,
    Arg2,
    LongestArg,
    NArgs,
    Test,
}

/// The length a count of elements gives.
pub open spec fn count_length(n: int) -> Length {
    if n == 0 {
        Length::Zero
    } else if n == 1 {
        Length::One
    } else {
        Length::Known(n as usize)
    }
}

/// What a parsed length specification gives before any argument is
/// consulted: literal counts exactly, everything else unknown.
pub open spec fn json_length_spec(spec: Option<JsonLength>) -> Length {
    match spec {
        Some(JsonLength::Known(n)) => count_length(n as int),
        _ => Length::Unknown,
    }
}

/// Map a parsed length specification to a length.
pub fn json_length_to_length(spec: Option<JsonLength>) -> (r: Length)
    ensures
        r == json_length_spec(spec),
{
    match spec {
        Some(JsonLength::Known(0)) => Length::Zero,
        Some(JsonLength::Known(1)) => Length::One,
        Some(JsonLength::Known(value)) => Length::Known(value),
        _ => Length::Unknown,
    }
}

/// The length a size argument written as a literal asks for: its value
/// truncated toward zero, when that is a count below `usize::MAX`; a
/// leading minus is folded in, so only `-0` and `-0.x` survive it.
pub open spec fn literal_size(e: Expr) -> Length {
    match e {
        Expr::Integer(n, _) => if 0 <= n < usize::MAX {
            count_length(n as int)
        } else {
            Length::Unknown
        },
        Expr::Double(d, _) => match d.trunc {
            Some(k) => count_length(k as int),
            None => Length::Unknown,
        },
        Expr::UnaryOp { op: UnaryOpKind::Neg, expr, .. } => match *expr {
            Expr::Integer(n, _) => if n <= 0 && -n < usize::MAX {
                count_length(-n)
            } else {
                Length::Unknown
            },
            Expr::Double(d, _) => if d.trunc == Some(0usize) {
                Length::Zero
            } else {
                Length::Unknown
            },
            _ => Length::Unknown,
        },
        _ => Length::Unknown,
    }
}

/// The length a size argument gives: the default when it is absent, its
/// literal value when it is one, unknown otherwise.
pub open spec fn size_spec(value: Option<&Expr>, default: usize) -> Length {
    match value {
        None => count_length(default as int),
        Some(e) => literal_size(*e),
    }
}

/// The length a size argument asks for. R truncates numeric sizes toward
/// zero; dynamic and invalid sizes stay unknown.
pub fn size_argument_length(value: Option<&Expr>, default: usize) -> (r: Length)
    ensures
        r == size_spec(value, default),
{
    match value {
        None => json_length_to_length(Some(JsonLength::Known(default))),
        Some(Expr::Integer(n, _)) => {
            if *n >= 0 && (*n as u128) < (usize::MAX as u128) {
                json_length_to_length(Some(JsonLength::Known(*n as usize)))
            } else {
                Length::Unknown
            }
        },
        Some(Expr::Double(d, _)) => match d.trunc {
            Some(k) => json_length_to_length(Some(JsonLength::Known(k))),
            None => Length::Unknown,
        },
        Some(Expr::UnaryOp { op: UnaryOpKind::Neg, expr, .. }) => match &**expr {
            Expr::Integer(n, _) => {
                if *n <= 0 && ((0i128 - *n as i128) as u128) < (usize::MAX as u128) {
                    let k: usize = (0i128 - *n as i128) as usize;
                    json_length_to_length(Some(JsonLength::Known(k)))
                } else {
                    Length::Unknown
                }
            },
            Expr::Double(d, _) => {
                if d.trunc == Some(0usize) {
                    Length::Zero
                } else {
                    Length::Unknown
                }
            },
            _ => Length::Unknown,
        },
        _ => Length::Unknown,
    }
}

/// How a recycled-values rule reads a call: which formals carry the
/// recycled values (`...` for the dots), which formals are controls the
/// rule may consult, and the controls that collapse the result to a
/// scalar and that make an empty value give an empty result.
#[derive(Debug)]
pub struct RecycledValuesSpec {
    pub value_params: Vec<String>,
    pub control_params: Vec<String>,
    pub collapse: String,
    pub recycle0: String,
}

/// A stub's rule for the length of a call's result.
#[derive(Debug)]
pub enum ReturnLengthSpec {
    /// The value of a size argument, or a default when it is absent.
    ParamValue { param: String, default_length: usize },
    /// Empty when an argument bound to one of these formals is empty.
    ZeroIfAnyParamZero { params: Vec<String> },
    /// The recycled length of the value arguments.
    RecycledValues(RecycledValuesSpec),
}

/// The formal each actual binds under R's matching.
pub open spec fn call_pfa(params: Seq<ParamSpec>, args: Seq<Arg>) -> Seq<Option<int>> {
    positional_pass(spec_names(params), arg_tags(args), arg_tags(args).len() as int).st.pfa
}

/// The actual bound to the first formal named `name`.
pub open spec fn bound_to(params: Seq<ParamSpec>, args: Seq<Arg>, name: Seq<char>) -> Option<int> {
    match formal_index(params, name, 0) {
        Some(p) => bound_actual(params, args, p),
        None => None,
    }
}

/// Whether actual `i` binds a value formal of the rule, or is swallowed
/// by `...` when the rule takes the dots as values.
pub open spec fn value_selected(params: Seq<ParamSpec>, args: Seq<Arg>, values: Seq<String>, i: int) -> bool {
    match call_pfa(params, args)[i] {
        Some(p) if 0 <= p < params.len() => has_name(values, params[p].name@),
        _ => dots_from(spec_names(params), 0) is Some && has_name(values, dots_text()),
    }
}

/// The value actuals among the first `n`, in order.
pub open spec fn value_indices(params: Seq<ParamSpec>, args: Seq<Arg>, values: Seq<String>, n: int) -> Seq<int>
    decreases n,
{
    if n <= 0 {
        seq![]
    } else if value_selected(params, args, values, n - 1) {
        value_indices(params, args, values, n - 1).push(n - 1)
    } else {
        value_indices(params, args, values, n - 1)
    }
}

/// The types of the value actuals that have a type.
pub open spec fn value_types(params: Seq<ParamSpec>, args: Seq<Arg>, arg_types: Seq<RType>, values: Seq<String>) -> Seq<RType> {
    let n = if args.len() <= arg_types.len() { args.len() as int } else { arg_types.len() as int };
    value_indices(params, args, values, n).map_values(|i: int| arg_types[i])
}

/// The actual bound to a control of the rule, when `name` is one.
pub open spec fn control_index(params: Seq<ParamSpec>, args: Seq<Arg>, controls: Seq<String>, name: Seq<char>) -> Option<int> {
    if has_name(controls, name) {
        bound_to(params, args, name)
    } else {
        None
    }
}

/// Whether `e` is the literal `TRUE`.
pub open spec fn is_true_literal(e: Expr) -> bool {
    e matches Expr::Logical(true, _)
}

/// The length a recycled-values rule gives: a bound collapse control
/// other than `NULL` gives a scalar (unknown when its type is not
/// concrete); a bound `recycle0 = TRUE` with an empty value gives an empty
/// result; otherwise no values, or only empty ones, give an empty result
/// and any other values their recycled length.
pub open spec fn recycled_spec(params: Seq<ParamSpec>, args: Seq<Arg>, arg_types: Seq<RType>, spec: RecycledValuesSpec) -> Length {
    let vt = value_types(params, args, arg_types, spec.value_params@);
    let collapse = control_index(params, args, spec.control_params@, spec.collapse@);
    let recycle0 = control_index(params, args, spec.control_params@, spec.recycle0@);
    if collapse is Some && arg_types[collapse->0].mode != Mode::Null {
        if arg_types[collapse->0].mode != Mode::Opaque && arg_types[collapse->0].mode != Mode::Union {
            Length::One
        } else {
            Length::Unknown
        }
    } else if recycle0 is Some && is_true_literal(args[recycle0->0].value)
        && exists|k: int| 0 <= k < vt.len() && #[trigger] vt[k].length == Length::Zero {
        Length::Zero
    } else if forall|k: int| 0 <= k < vt.len() ==> #[trigger] vt[k].length == Length::Zero {
        Length::Zero
    } else {
        longest_spec(vt)
    }
}

/// Whether an argument bound to one of `names` has a type of length zero.
pub open spec fn any_param_zero(params: Seq<ParamSpec>, args: Seq<Arg>, arg_types: Seq<RType>, names: Seq<String>) -> bool {
    exists|k: int, i: int|
        #![trigger names[k], arg_types[i]]
        {
            &&& 0 <= k < names.len()
            &&& 0 <= i < args.len()
            &&& i < arg_types.len()
            &&& formal_index(params, names[k]@, 0) is Some
            &&& call_pfa(params, args)[i] == formal_index(params, names[k]@, 0)
            &&& arg_types[i].length == Length::Zero
        }
}

/// The length a stub's rule gives for a call, `None` when the stub has no
/// rule or the argument types come without source arguments.
pub open spec fn semantic_spec(
    semantics: Option<&ReturnLengthSpec>,
    params: Seq<ParamSpec>,
    args: Seq<Arg>,
    arg_types: Seq<RType>,
) -> Option<Length> {
    match semantics {
        None => None,
        Some(rule) => if args.len() == 0 && arg_types.len() != 0 {
            None
        } else {
            match *rule {
                ReturnLengthSpec::ParamValue { param, default_length } => Some(
                    match bound_to(params, args, param@) {
                        Some(i) => size_spec(Some(&args[i].value), default_length),
                        None => size_spec(None, default_length),
                    },
                ),
                ReturnLengthSpec::ZeroIfAnyParamZero { params: names } => Some(
                    if any_param_zero(params, args, arg_types, names@) {
                        Length::Zero
                    } else {
                        Length::Unknown
                    },
                ),
                ReturnLengthSpec::RecycledValues(spec) => Some(recycled_spec(params, args, arg_types, spec)),
            }
        },
    }
}

/// A collapse control, when bound, has a type.
pub open spec fn collapse_typed(
    semantics: Option<&ReturnLengthSpec>,
    params: Seq<ParamSpec>,
    args: Seq<Arg>,
    arg_types: Seq<RType>,
) -> bool {
    match semantics {
        Some(rule) => match *rule {
            ReturnLengthSpec::RecycledValues(spec) => (args.len() == 0 && arg_types.len() != 0)
                || match control_index(params, args, spec.control_params@, spec.collapse@) {
                Some(i) => i < arg_types.len(),
                None => true,
            },
            _ => true,
        },
        None => true,
    }
}

/// The bound index under a computed match is the bound index of the call.
pub proof fn lemma_bound_to(params: Seq<ParamSpec>, args: Seq<Arg>, m: ArgumentMatch, name: Seq<char>)
    requires
        match_spec(spec_names(params), arg_tags(args), m),
    ensures
        bound_index_spec(params, m, name) == bound_to(params, args, name),
{
    if let Some(p) = formal_index(params, name, 0) {
        lemma_first_binding_matches(m, params, args, p, 0);
    }
}

/// The recycled length depends only on the lengths of the types.
proof fn lemma_longest_lengths(a: Seq<RType>, b: Seq<RType>)
    requires
        a.len() == b.len(),
        forall|k: int| 0 <= k < a.len() ==> #[trigger] a[k].length == b[k].length,
    ensures
        longest_spec(a) == longest_spec(b),
    decreases a.len(),
{
    if a.len() > 0 {
        lemma_longest_lengths(a.drop_last(), b.drop_last());
    }
}

/// Whether a list of formal names holds `...`.
fn names_hold_dots(v: &Vec<String>) -> (r: bool)
    ensures
        r == has_name(v@, dots_text()),
{
    let mut i: usize = 0;
    while i < v.len()
        invariant
            i <= v@.len(),
            forall|k: int| 0 <= k < i ==> (#[trigger] v@[k])@ != dots_text(),
        decreases v.len() - i,
    {
        if is_dots(v[i].as_str()) {
            return true;
        }
        i = i + 1;
    }
    false
}

/// The actual bound to the control `name` of a recycled-values rule.
fn bound_control(
    params: &[ParamSpec],
    args: &[Arg],
    bindings: &ArgumentMatch,
    spec: &RecycledValuesSpec,
    name: &str,
) -> (r: Option<usize>)
    requires
        match_spec(spec_names(params@), arg_tags(args@), *bindings),
    ensures
        opt_int(r) == control_index(params@, args@, spec.control_params@, name@),
        r matches Some(i) ==> i < args@.len(),
{
    if names_contain(&spec.control_params, name) {
        proof {
            lemma_bound_to(params@, args@, *bindings, name@);
        }
        bound_argument_index_matched(params, bindings, name)
    } else {
        None
    }
}

/// Whether an argument bound to one of `names` is empty.
fn bound_param_is_zero(
    params: &[ParamSpec],
    args: &[Arg],
    arg_types: &[RType],
    bindings: &ArgumentMatch,
    names: &Vec<String>,
) -> (r: bool)
    requires
        match_spec(spec_names(params@), arg_tags(args@), *bindings),
    ensures
        r == any_param_zero(params@, args@, arg_types@, names@),
{
    let ghost pfa = call_pfa(params@, args@);
    let mut k: usize = 0;
    while k < names.len()
        invariant
            k <= names@.len(),
            match_spec(spec_names(params@), arg_tags(args@), *bindings),
            pfa == call_pfa(params@, args@),
            forall|kk: int, i: int|
                #![trigger names@[kk], arg_types@[i]]
                0 <= kk < k && 0 <= i < args@.len() && i < arg_types@.len()
                    ==> !(formal_index(params@, names@[kk]@, 0) is Some && pfa[i] == formal_index(
                    params@,
                    names@[kk]@,
                    0,
                ) && arg_types@[i].length == Length::Zero),
        decreases names.len() - k,
    {
        if let Some(p) = find_formal(params, names[k].as_str()) {
            let mut i: usize = 0;
            while i < bindings.param_for_arg.len()
                invariant
                    k < names@.len(),
                    i <= bindings.param_for_arg@.len(),
                    match_spec(spec_names(params@), arg_tags(args@), *bindings),
                    pfa == call_pfa(params@, args@),
                    opt_int(Some(p)) == formal_index(params@, names@[k as int]@, 0),
                    forall|j: int|
                        #![trigger arg_types@[j]]
                        0 <= j < i && j < arg_types@.len() ==> !(pfa[j] == Some(p as int)
                            && arg_types@[j].length == Length::Zero),
                decreases bindings.param_for_arg.len() - i,
            {
                assert(opt_int(bindings.param_for_arg@[i as int]) == pfa[i as int]);
                if bindings.param_for_arg[i] == Some(p) && i < arg_types.len() {
                    if arg_types[i].length == Length::Zero {
                        assert(names@[k as int] == names@[k as int]);
                        assert(arg_types@[i as int] == arg_types@[i as int]);
                        return true;
                    }
                }
                i = i + 1;
            }
            assert forall|i: int|
                #![trigger arg_types@[i]]
                0 <= i < args@.len() && i < arg_types@.len()
                    implies !(formal_index(params@, names@[k as int]@, 0) is Some && pfa[i] == formal_index(
                    params@,
                    names@[k as int]@,
                    0,
                ) && arg_types@[i].length == Length::Zero) by {
                assert(bindings.param_for_arg@.len() == args@.len());
            }
        }
        k = k + 1;
    }
    false
}

/// The length a recycled-values rule gives for a call.
fn recycled_values_length(
    params: &[ParamSpec],
    args: &[Arg],
    arg_types: &[RType],
    bindings: &ArgumentMatch,
    spec: &RecycledValuesSpec,
) -> (r: Length)
    requires
        match_spec(spec_names(params@), arg_tags(args@), *bindings),
        match control_index(params@, args@, spec.control_params@, spec.collapse@) {
            Some(i) => i < arg_types@.len(),
            None => true,
        },
    ensures
        r == recycled_spec(params@, args@, arg_types@, *spec),
{
    let ghost pfa = call_pfa(params@, args@);
    let n: usize = if args.len() <= arg_types.len() { args.len() } else { arg_types.len() };
    let takes_dots = bindings.dots.is_some() && names_hold_dots(&spec.value_params);
    assert(bindings.param_for_arg@.len() == args@.len());
    let mut values: Vec<RType> = Vec::new();
    let mut i: usize = 0;
    while i < n
        invariant
            i <= n,
            n <= args@.len(),
            n <= arg_types@.len(),
            match_spec(spec_names(params@), arg_tags(args@), *bindings),
            pfa == call_pfa(params@, args@),
            takes_dots == (dots_from(spec_names(params@), 0) is Some && has_name(spec.value_params@, dots_text())),
            values@.len() == value_indices(params@, args@, spec.value_params@, i as int).len(),
            forall|k: int|
                0 <= k < values@.len() ==> #[trigger] values@[k].length == arg_types@[value_indices(
                    params@,
                    args@,
                    spec.value_params@,
                    i as int,
                )[k]].length,
            forall|k: int|
                0 <= k < value_indices(params@, args@, spec.value_params@, i as int).len() ==> 0
                    <= #[trigger] value_indices(params@, args@, spec.value_params@, i as int)[k] < i,
        decreases n - i,
    {
        assert(opt_int(bindings.param_for_arg@[i as int]) == pfa[i as int]);
        let selected = match bindings.param_for_arg[i] {
            Some(p) => if p < params.len() {
                names_contain(&spec.value_params, params[p].name.as_str())
            } else {
                takes_dots
            },
            None => takes_dots,
        };
        assert(selected == value_selected(params@, args@, spec.value_params@, i as int));
        let ghost before = value_indices(params@, args@, spec.value_params@, i as int);
        if selected {
            values.push(copy_type(&arg_types[i]));
        }
        i = i + 1;
        proof {
            let now = value_indices(params@, args@, spec.value_params@, i as int);
            if selected {
                assert(now == before.push(i - 1));
            } else {
                assert(now == before);
            }
        }
    }
    let ghost vt = value_types(params@, args@, arg_types@, spec.value_params@);
    proof {
        let idx = value_indices(params@, args@, spec.value_params@, n as int);
        assert(vt.len() == values@.len());
        assert forall|k: int| 0 <= k < vt.len() implies #[trigger] vt[k].length == values@[k].length by {
            assert(vt[k] == arg_types@[idx[k]]);
        }
        lemma_longest_lengths(vt, values@);
    }
    let collapse = bound_control(params, args, bindings, spec, spec.collapse.as_str());
    if let Some(index) = collapse {
        let mode = arg_types[index].mode;
        if mode != Mode::Null {
            if mode != Mode::Opaque && mode != Mode::Union {
                return Length::One;
            } else {
                return Length::Unknown;
            }
        }
    }
    let mut any_zero = false;
    let mut all_zero = true;
    let mut k: usize = 0;
    while k < values.len()
        invariant
            k <= values@.len(),
            vt.len() == values@.len(),
            forall|j: int| 0 <= j < vt.len() ==> #[trigger] vt[j].length == values@[j].length,
            any_zero == exists|j: int| 0 <= j < k && #[trigger] vt[j].length == Length::Zero,
            all_zero == forall|j: int| 0 <= j < k ==> #[trigger] vt[j].length == Length::Zero,
        decreases values.len() - k,
    {
        if values[k].length == Length::Zero {
            assert(vt[k as int].length == Length::Zero);
            any_zero = true;
        } else {
            assert(vt[k as int].length != Length::Zero);
            all_zero = false;
        }
        k = k + 1;
    }
    let recycle0 = bound_control(params, args, bindings, spec, spec.recycle0.as_str());
    if let Some(index) = recycle0 {
        let is_true = match &args[index].value {
            Expr::Logical(true, _) => true,
            _ => false,
        };
        if is_true && any_zero {
            return Length::Zero;
        }
    }
    if all_zero {
        Length::Zero
    } else {
        longest_arg_length(&values)
    }
}

/// The length a stub's declared rule gives for a call: the value of a size
/// argument, zero when a given argument is empty, or the recycled length of
/// the value arguments. `None` when the stub declares no rule, or when
/// argument types come without source arguments (callback inference).
pub fn semantic_return_length(
    semantics: Option<&ReturnLengthSpec>,
    signature_params: &[ParamSpec],
    args: &[Arg],
    arg_types: &[RType],
) -> (r: Option<Length>)
    requires
        collapse_typed(semantics, signature_params@, args@, arg_types@),
    ensures
        r == semantic_spec(semantics, signature_params@, args@, arg_types@),
{
    let rule = match semantics {
        Some(rule) => rule,
        None => return None,
    };
    if args.len() == 0 && arg_types.len() != 0 {
        return None;
    }
    let bindings = match_params(signature_params, args);
    match rule {
        ReturnLengthSpec::ParamValue { param, default_length } => {
            proof {
                lemma_bound_to(signature_params@, args@, bindings, param@);
            }
            let value = match bound_argument_index_matched(signature_params, &bindings, param.as_str()) {
                Some(i) => Some(&args[i].value),
                None => None,
            };
            Some(size_argument_length(value, *default_length))
        },
        ReturnLengthSpec::ZeroIfAnyParamZero { params } => {
            if bound_param_is_zero(signature_params, args, arg_types, &bindings, params) {
                Some(Length::Zero)
            } else {
                Some(Length::Unknown)
            }
        },
        ReturnLengthSpec::RecycledValues(spec) => {
            Some(recycled_values_length(signature_params, args, arg_types, &bindings, spec))
        },
    }
}

} // verus!
