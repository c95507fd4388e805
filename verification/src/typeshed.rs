//! Function signatures from typeshed stubs, as plain data, and what the
//! checker derives from them.
use vstd::prelude::*;
use crate::ast::Arg;
use crate::matching::{ArgumentMatch, arg_tags, dots_text, first_binding, is_dots, match_arguments, match_spec, name_views, opt_int, positional_pass};
use crate::text::str_eq;
use crate::types::{Length, Mode, RType, copy_type, is_unknown_type, ty_eq};

verus! {

/// How a formal evaluates its argument.
#[derive(Clone, Copy, PartialEq, Eq, Debug, Structural)]
pub enum EvalMode {
    Normal,
    DataMask,
    TidySelect,
    QuotedExpression,
    QuotedSymbol,
    CapturesPromise,
}

/// Which tidy-evaluation injection syntax a formal processes.
#[derive(Clone, Copy, PartialEq, Eq, Debug, Structural)]
pub enum InjectionMode {
    Names,
    Full,
}

/// The schema effect a stub declares for its data argument.
#[derive(Clone, Copy, PartialEq, Eq, Debug, Structural)]
pub enum SchemaEffect {
    Join,
    Other,
}

/// A type as written in a stub: mode and length are text, `members` lists
/// the modes of a union, `columns` the fields of a dataset.
#[derive(Debug)]
pub struct JsonRType {
    pub mode: String,
    pub length: String,
    pub members: Vec<String>,
    pub class: Vec<String>,
    pub columns: Vec<(String, JsonRType)>,
}

/// A formal parameter of a stub signature.
#[derive(Debug)]
pub struct ParamSpec {
    pub name: String,
    pub type_: Option<JsonRType>,
    pub required: bool,
    pub default: Option<String>,
    /// The declared type is a relational demand, not an assertion about
    /// the argument's own type.
    pub demand_only: bool,
}

/// An effect a call has on the bindings of a scope.
#[derive(Clone, Copy, PartialEq, Eq, Debug, Structural)]
pub enum ScopeEffect {
    /// The call may create bindings the checker cannot name.
    UnknownBindings,
    /// Any other declared effect.
    Other,
}

/// The scope a conditional effect reaches when its control is not given.
#[derive(Clone, Copy, PartialEq, Eq, Debug, Structural)]
pub enum DefaultCurrentScope {
    /// The current scope when the call is at the top level.
    TopLevel,
    /// Any other default.
    Other,
}

/// A control formal and the logical value that makes an effect reach the
/// current scope.
#[derive(Debug)]
pub struct ScopeCondition {
    pub param: String,
    pub equals: bool,
}

/// An effect that reaches the current scope only under a control.
#[derive(Debug)]
pub struct ConditionalScopeEffect {
    pub effect: ScopeEffect,
    pub current_scope_when: ScopeCondition,
    pub default_current_scope: DefaultCurrentScope,
}

/// A stub signature.
#[derive(Debug)]
pub struct FunctionSig {
    pub params: Vec<ParamSpec>,
    /// The effect every call has on the calling scope.
    pub scope_effect: Option<ScopeEffect>,
    /// An effect on the calling scope that depends on a control argument.
    pub conditional_scope_effect: Option<ConditionalScopeEffect>,
    /// Evaluation mode per formal name (`...` covers the dots).
    pub eval: Vec<(String, EvalMode)>,
    /// The formal that supplies the data mask, when declared.
    pub data_mask_source: Option<String>,
    pub schema_effect: Option<SchemaEffect>,
    /// Injection mode per formal name.
    pub injection: Vec<(String, InjectionMode)>,
    /// The return type the stub declares, when it declares one.
    pub return_spec: Option<ReturnSpec>,
}

/// How a stub's declared return mode is read.
#[derive(Clone, Copy, PartialEq, Eq, Debug, Structural)]
pub enum ReturnMode {
    /// This mode.
    Exact(Mode),
    /// Integer when the first matched argument is integer, else double.
    DoubleOrInt,
    /// The mode of the first matched argument.
    Arg0,
    /// The mode of the third matched argument.
    Arg2,
    /// The join of the second and third matched arguments' modes.
    YesOrNo,
}

/// How a stub's declared return length is read.
#[derive(Clone, Copy, PartialEq, Eq, Debug, Structural)]
pub enum ReturnLength {
    /// This length.
    Exact(Length),
    /// The length of the first, second or third matched argument.
    Arg0,
    Arg1,
    Arg2,
    /// The longest of the arguments.
    LongestArg,
    /// The number of arguments.
    NArgs,
    /// The length of the tested (first) argument.
    Test,
}

/// A stub's declared return.
#[derive(Debug)]
pub enum ReturnSpec {
    /// The type of the first matched argument.
    FirstArgument,
    /// What `c()` of the arguments gives.
    Concatenation,
    /// A declared mode rule, length rule and class names.
    Declared { mode: ReturnMode, length: ReturnLength, class: Vec<String> },
}

/// The views of the formal names of a signature.
pub open spec fn spec_names(params: Seq<ParamSpec>) -> Seq<Seq<char>> {
    Seq::new(params.len(), |j: int| params[j].name@)
}

/// The names of `params`, borrowed in order.
pub fn param_names(params: &[ParamSpec]) -> (r: Vec<&str>)
    ensures
        name_views(r@) == spec_names(params@),
{
    let mut names: Vec<&str> = Vec::new();
    let mut j: usize = 0;
    while j < params.len()
        invariant
            j <= params@.len(),
            names@.len() == j,
            forall|k: int| 0 <= k < j ==> (#[trigger] names@[k])@ == params@[k].name@,
        decreases params.len() - j,
    {
        names.push(params[j].name.as_str());
        j = j + 1;
    }
    assert(name_views(names@) =~= spec_names(params@));
    names
}

/// `match_arguments` over a signature's formals.
pub fn match_params(params: &[ParamSpec], args: &[Arg]) -> (r: ArgumentMatch)
    ensures
        match_spec(spec_names(params@), arg_tags(args@), r),
{
    let names = param_names(params);
    match_arguments(names.as_slice(), args)
}

/// First index of a formal named `name`.
pub open spec fn formal_index(params: Seq<ParamSpec>, name: Seq<char>, from: int) -> Option<int>
    decreases params.len() - from,
{
    if from < 0 || from >= params.len() {
        None
    } else if params[from].name@ == name {
        Some(from)
    } else {
        formal_index(params, name, from + 1)
    }
}

/// The actual bound to the formal named `formal` under an existing match.
pub open spec fn bound_index_spec(
    params: Seq<ParamSpec>,
    bindings: ArgumentMatch,
    formal: Seq<char>,
) -> Option<int> {
    match formal_index(params, formal, 0) {
        Some(j) => first_binding(bindings.param_for_arg@, j, 0),
        None => None,
    }
}

/// Index of the formal named `formal`.
pub fn find_formal(params: &[ParamSpec], formal: &str) -> (r: Option<usize>)
    ensures
        opt_int(r) == formal_index(params@, formal@, 0),
        r matches Some(j) ==> j < params@.len(),
{
    let mut j: usize = 0;
    while j < params.len()
        invariant
            j <= params@.len(),
            formal_index(params@, formal@, 0) == formal_index(params@, formal@, j as int),
        decreases params.len() - j,
    {
        if str_eq(params[j].name.as_str(), formal) {
            return Some(j);
        }
        j = j + 1;
    }
    None
}

/// The actual argument bound to the formal named `formal`, under a match
/// already computed for this call.
pub fn bound_argument_index_matched(
    params: &[ParamSpec],
    bindings: &ArgumentMatch,
    formal: &str,
) -> (r: Option<usize>)
    ensures
        opt_int(r) == bound_index_spec(params@, *bindings, formal@),
        r matches Some(i) ==> i < bindings.param_for_arg@.len(),
{
    match find_formal(params, formal) {
        Some(j) => bindings.arg_for_param(j),
        None => None,
    }
}

/// The actual argument R binds to the formal named `formal`.
pub fn bound_argument_index(params: &[ParamSpec], args: &[Arg], formal: &str) -> (r: Option<usize>)
    ensures
        exists|m: ArgumentMatch|
            match_spec(spec_names(params@), arg_tags(args@), m) && opt_int(r) == bound_index_spec(
                params@,
                m,
                formal@,
            ),
{
    let bindings = match_params(params, args);
    bound_argument_index_matched(params, &bindings, formal)
}

/// The entry for `key` in an association list, first match first.
pub open spec fn assoc<V>(entries: Seq<(String, V)>, key: Seq<char>, from: int) -> Option<V>
    decreases entries.len() - from,
{
    if from < 0 || from >= entries.len() {
        None
    } else if entries[from].0@ == key {
        Some(entries[from].1)
    } else {
        assoc(entries, key, from + 1)
    }
}

/// Look up the evaluation mode declared for `key`.
pub fn lookup_eval(entries: &Vec<(String, EvalMode)>, key: &str) -> (r: Option<EvalMode>)
    ensures
        r == assoc(entries@, key@, 0),
{
    let mut i: usize = 0;
    while i < entries.len()
        invariant
            i <= entries@.len(),
            assoc(entries@, key@, 0) == assoc(entries@, key@, i as int),
        decreases entries.len() - i,
    {
        if str_eq(entries[i].0.as_str(), key) {
            return Some(entries[i].1);
        }
        i = i + 1;
    }
    None
}

/// Look up the injection mode declared for `key`.
pub fn lookup_injection(entries: &Vec<(String, InjectionMode)>, key: &str) -> (r: Option<
    InjectionMode,
>)
    ensures
        r == assoc(entries@, key@, 0),
{
    let mut i: usize = 0;
    while i < entries.len()
        invariant
            i <= entries@.len(),
            assoc(entries@, key@, 0) == assoc(entries@, key@, i as int),
        decreases entries.len() - i,
    {
        if str_eq(entries[i].0.as_str(), key) {
            return Some(entries[i].1);
        }
        i = i + 1;
    }
    None
}

/// The formal name whose evaluation mode governs actual `index`: its bound
/// formal, or `...` when it is unbound.
pub open spec fn governing_formal(sig: FunctionSig, bindings: ArgumentMatch, index: int) -> Seq<
    char,
> {
    match bindings.param_for_arg@[index] {
        Some(j) => if j < sig.params@.len() {
            sig.params@[j as int].name@
        } else {
            dots_text()
        },
        None => dots_text(),
    }
}

/// Evaluation mode of actual `index`: the mode declared for its formal,
/// else the mode declared for `...`.
pub open spec fn eval_mode_spec(sig: FunctionSig, bindings: ArgumentMatch, index: int) -> Option<
    EvalMode,
> {
    if index < 0 || index >= bindings.param_for_arg@.len() {
        None
    } else {
        match assoc(sig.eval@, governing_formal(sig, bindings, index), 0) {
            Some(m) => Some(m),
            None => assoc(sig.eval@, dots_text(), 0),
        }
    }
}

/// Eval mode declared for the argument at `index`, under a match shared by
/// the whole call site.
pub fn eval_mode_for_arg(sig: &FunctionSig, bindings: &ArgumentMatch, index: usize) -> (r: Option<
    EvalMode,
>)
    ensures
        r == eval_mode_spec(*sig, *bindings, index as int),
{
    if index >= bindings.param_for_arg.len() {
        return None;
    }
    let dots = "...";
    proof {
        reveal_strlit("...");
        assert(dots@ =~= dots_text());
    }
    let parameter: &str = match bindings.param_for_arg[index] {
        Some(j) => if j < sig.params.len() {
            sig.params[j].name.as_str()
        } else {
            dots
        },
        None => dots,
    };
    match lookup_eval(&sig.eval, parameter) {
        Some(m) => Some(m),
        None => lookup_eval(&sig.eval, dots),
    }
}

/// Eval mode declared for the argument at `index` of the call `args`.
pub fn argument_eval_mode(sig: &FunctionSig, args: &[Arg], index: usize) -> (r: Option<EvalMode>)
    ensures
        exists|m: ArgumentMatch|
            match_spec(spec_names(sig.params@), arg_tags(args@), m) && r == eval_mode_spec(
                *sig,
                m,
                index as int,
            ),
{
    let bindings = match_params(sig.params.as_slice(), args);
    eval_mode_for_arg(sig, &bindings, index)
}

/// Whether any formal declares data-mask or tidy-select evaluation.
pub open spec fn masks_any(eval: Seq<(String, EvalMode)>) -> bool {
    exists|i: int|
        0 <= i < eval.len() && (#[trigger] eval[i].1 == EvalMode::DataMask || eval[i].1
            == EvalMode::TidySelect)
}

/// The formal that supplies a call's data: the declared source, else an
/// unmasked first formal of a join or masking signature.
pub open spec fn mask_source(sig: FunctionSig) -> Option<Seq<char>> {
    match sig.data_mask_source {
        Some(s) => Some(s@),
        None => if sig.schema_effect != Some(SchemaEffect::Join) && !masks_any(sig.eval@) {
            None
        } else if sig.params@.len() == 0 {
            None
        } else {
            let first = sig.params@[0].name@;
            if first == dots_text() {
                None
            } else {
                match assoc(sig.eval@, first, 0) {
                    Some(m) => if m != EvalMode::Normal {
                        None
                    } else {
                        Some(first)
                    },
                    None => Some(first),
                }
            }
        },
    }
}

/// Find the data argument by formal binding, including named arguments.
/// Without an explicit source, only an unmasked first formal supplies data;
/// quoting helpers such as `vars(...)` have no data argument.
pub fn data_mask_source_arg(sig: &FunctionSig, args: &[Arg]) -> (r: Option<usize>)
    ensures
        mask_source(*sig) is None ==> r is None,
        mask_source(*sig) is Some ==> exists|m: ArgumentMatch|
            #[trigger] match_spec(spec_names(sig.params@), arg_tags(args@), m) && opt_int(r)
                == bound_index_spec(sig.params@, m, mask_source(*sig)->0),
{
    let source: &str = match &sig.data_mask_source {
        Some(source) => source.as_str(),
        None => {
            let mut masks = false;
            let mut i: usize = 0;
            while i < sig.eval.len()
                invariant
                    i <= sig.eval@.len(),
                    masks == exists|k: int|
                        0 <= k < i && (#[trigger] sig.eval@[k].1 == EvalMode::DataMask
                            || sig.eval@[k].1 == EvalMode::TidySelect),
                decreases sig.eval.len() - i,
            {
                if sig.eval[i].1 == EvalMode::DataMask || sig.eval[i].1 == EvalMode::TidySelect {
                    masks = true;
                }
                i = i + 1;
            }
            if sig.schema_effect != Some(SchemaEffect::Join) && !masks {
                return None;
            }
            if sig.params.len() == 0 {
                return None;
            }
            let first = sig.params[0].name.as_str();
            if is_dots(first) {
                return None;
            }
            match lookup_eval(&sig.eval, first) {
                Some(m) => {
                    if m != EvalMode::Normal {
                        return None;
                    }
                },
                None => {},
            }
            assert(masks == masks_any(sig.eval@));
            first
        },
    };
    assert(mask_source(*sig) == Some(source@));
    let bindings = match_params(sig.params.as_slice(), args);
    let r = bound_argument_index_matched(sig.params.as_slice(), &bindings, source);
    assert(match_spec(spec_names(sig.params@), arg_tags(args@), bindings));
    assert(opt_int(r) == bound_index_spec(sig.params@, bindings, source@));
    r
}

/// The injection mode the formal bound to actual `index` processes (the
/// `...` formal for an unbound actual).
pub open spec fn injection_spec(sig: FunctionSig, m: ArgumentMatch, index: int) -> Option<
    InjectionMode,
> {
    let formal = match m.param_for_arg@[index] {
        Some(j) => Some(j),
        None => m.dots,
    };
    match formal {
        Some(j) => if j < sig.params@.len() {
            assoc(sig.injection@, sig.params@[j as int].name@, 0)
        } else {
            None
        },
        None => None,
    }
}

/// Whether the matched formal processes tidy-evaluation injection syntax.
pub fn argument_supports_injection(sig: &FunctionSig, args: &[Arg], index: usize) -> (r: Option<
    InjectionMode,
>)
    requires
        index < args@.len(),
    ensures
        exists|m: ArgumentMatch|
            match_spec(spec_names(sig.params@), arg_tags(args@), m) && r == injection_spec(
                *sig,
                m,
                index as int,
            ),
{
    let bindings = match_params(sig.params.as_slice(), args);
    assert(bindings.param_for_arg@.len() == arg_tags(args@).len());
    let formal = match bindings.param_for_arg[index] {
        Some(j) => Some(j),
        None => bindings.dots,
    };
    let r = match formal {
        Some(j) => if j < sig.params.len() {
            lookup_injection(&sig.injection, sig.params[j].name.as_str())
        } else {
            None
        },
        None => None,
    };
    assert(match_spec(spec_names(sig.params@), arg_tags(args@), bindings));
    assert(r == injection_spec(*sig, bindings, index as int));
    r
}


/// The first of the actuals before `end` whose computed binding is formal `f`.
pub open spec fn first_bound(pfa: Seq<Option<int>>, f: int, from: int, end: int) -> Option<int>
    decreases end - from,
{
    if from < 0 || from >= end {
        None
    } else if pfa[from] == Some(f) {
        Some(from)
    } else {
        first_bound(pfa, f, from + 1, end)
    }
}

/// The actual argument R binds to formal `f` of `params`.
pub open spec fn bound_actual(params: Seq<ParamSpec>, args: Seq<Arg>, f: int) -> Option<int> {
    let names = arg_tags(args);
    first_bound(positional_pass(spec_names(params), names, names.len() as int).st.pfa, f, 0, names.len() as int)
}

pub proof fn lemma_first_binding_matches(m: ArgumentMatch, params: Seq<ParamSpec>, args: Seq<Arg>, f: int, from: int)
    requires
        match_spec(spec_names(params), arg_tags(args), m),
        0 <= from,
    ensures
        first_binding(m.param_for_arg@, f, from) == first_bound(
            positional_pass(spec_names(params), arg_tags(args), arg_tags(args).len() as int).st.pfa,
            f,
            from,
            arg_tags(args).len() as int,
        ),
    decreases m.param_for_arg@.len() - from,
{
    let names = arg_tags(args);
    let fin = positional_pass(spec_names(params), names, names.len() as int);
    if from < m.param_for_arg@.len() {
        assert(opt_int(m.param_for_arg@[from]) == fin.st.pfa[from]);
        lemma_first_binding_matches(m, params, args, f, from + 1);
    }
}

/// The argument types bound to each formal of a signature: the type of
/// the actual R binds to it, or the opaque type when none is bound or no
/// type was supplied for that actual.
pub fn match_args_to_params(sig_params: &[ParamSpec], args: &[Arg], arg_types: &[RType]) -> (r: Vec<RType>)
    ensures
        r@.len() == sig_params@.len(),
        forall|f: int|
            0 <= f < sig_params@.len() ==> match bound_actual(sig_params@, args@, f) {
                Some(i) => if i < arg_types@.len() {
                    ty_eq(#[trigger] r@[f], arg_types@[i])
                } else {
                    is_unknown_type(r@[f])
                },
                None => is_unknown_type(r@[f]),
            },
{
    let bindings = match_params(sig_params, args);
    let mut matched: Vec<RType> = Vec::new();
    let mut f: usize = 0;
    while f < sig_params.len()
        invariant
            f <= sig_params@.len(),
            matched@.len() == f,
            match_spec(spec_names(sig_params@), arg_tags(args@), bindings),
            forall|g: int|
                0 <= g < f ==> match bound_actual(sig_params@, args@, g) {
                    Some(i) => if i < arg_types@.len() {
                        ty_eq(#[trigger] matched@[g], arg_types@[i])
                    } else {
                        is_unknown_type(matched@[g])
                    },
                    None => is_unknown_type(matched@[g]),
                },
        decreases sig_params.len() - f,
    {
        proof {
            lemma_first_binding_matches(bindings, sig_params@, args@, f as int, 0);
        }
        let ty = match bindings.arg_for_param(f) {
            Some(i) => {
                if i < arg_types.len() {
                    copy_type(&arg_types[i])
                } else {
                    RType::unknown()
                }
            },
            None => RType::unknown(),
        };
        matched.push(ty);
        f = f + 1;
    }
    matched
}
} // verus!
