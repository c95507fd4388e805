//! Stub facts about calls that load bindings or assert types: whether a
//! loader populates the calling scope, and whether an assertion stub
//! carries the provenance that lets a local helper stand for it.
use vstd::prelude::*;
use crate::ast::{Arg, Expr};
use crate::result_length::{bound_to, lemma_bound_to};
use crate::text::str_eq;
use crate::typeshed::{DefaultCurrentScope, FunctionSig, ParamSpec, ScopeEffect, bound_argument_index_matched, match_params};

verus! {

/// Whether a loader call populates the scope it is called in: always for
/// an unconditional unknown-bindings effect; for a conditional one whose
/// default is the top level, as its control says -- the top level when
/// the control is not given, its literal value when it is a logical
/// literal, and yes for any other control value, which may be the
/// caller's frame.
pub open spec fn populates_spec(sig: FunctionSig, args: Seq<Arg>, top_level: bool) -> bool {
    if sig.scope_effect == Some(ScopeEffect::UnknownBindings) {
        true
    } else {
        match sig.conditional_scope_effect {
            Some(c) => if c.effect == ScopeEffect::UnknownBindings && c.default_current_scope
                == DefaultCurrentScope::TopLevel {
                match bound_to(sig.params@, args, c.current_scope_when.param@) {
                    None => top_level,
                    Some(i) => match args[i].value {
                        Expr::Logical(v, _) => v == c.current_scope_when.equals,
                        _ => true,
                    },
                }
            } else {
                false
            },
            None => false,
        }
    }
}

/// Whether a call of the loader `signature` populates the calling scope;
/// `top_level` says whether the call is outside every function.
pub fn scope_effect_populates_current_scope(signature: &FunctionSig, args: &[Arg], top_level: bool) -> (r: bool)
    ensures
        r == populates_spec(*signature, args@, top_level),
{
    if signature.scope_effect == Some(ScopeEffect::UnknownBindings) {
        return true;
    }
    let conditional = match &signature.conditional_scope_effect {
        Some(c) => c,
        None => return false,
    };
    if conditional.effect != ScopeEffect::UnknownBindings || conditional.default_current_scope
        != DefaultCurrentScope::TopLevel {
        return false;
    }
    let bindings = match_params(signature.params.as_slice(), args);
    proof {
        lemma_bound_to(signature.params@, args@, bindings, conditional.current_scope_when.param@);
    }
    let index = match bound_argument_index_matched(
        signature.params.as_slice(),
        &bindings,
        conditional.current_scope_when.param.as_str(),
    ) {
        Some(i) => i,
        None => return top_level,
    };
    match &args[index].value {
        Expr::Logical(value, _) => *value == conditional.current_scope_when.equals,
        _ => true,
    }
}

/// Where an assertion stub comes from.
#[derive(Clone, Copy, PartialEq, Eq, Debug, Structural)]
pub enum AssertionProvenanceKind {
    /// rlang's standalone type-check helpers.
    StandaloneTypesCheck,
    /// Any other source.
    Other,
}

/// The provenance of an assertion stub: its source, and the formals a
/// local helper must have to be taken for it.
#[derive(Debug)]
pub struct AssertionProvenance {
    pub kind: AssertionProvenanceKind,
    pub fingerprint_params: Vec<String>,
}

/// What an assertion stub asserts of its subject argument.
#[derive(Debug)]
pub struct AssertionSpec {
    pub subject_param: String,
    pub provenance: AssertionProvenance,
}

/// Whether the stub's formals include every fingerprint formal.
pub open spec fn fingerprints_present(params: Seq<ParamSpec>, fingerprints: Seq<String>) -> bool {
    forall|k: int|
        0 <= k < fingerprints.len() ==> exists|j: int|
            0 <= j < params.len() && #[trigger] params[j].name@ == (#[trigger] fingerprints[k])@
}

/// Whether an assertion stub comes from the standalone type checks, with
/// exactly the fingerprint `(arg, call)`, and its signature has both
/// formals.
pub open spec fn provenanced_spec(sig: FunctionSig, assertion: AssertionSpec) -> bool {
    &&& assertion.provenance.kind == AssertionProvenanceKind::StandaloneTypesCheck
    &&& assertion.provenance.fingerprint_params@.len() == 2
    &&& assertion.provenance.fingerprint_params@[0]@ == "arg"@
    &&& assertion.provenance.fingerprint_params@[1]@ == "call"@
    &&& fingerprints_present(sig.params@, assertion.provenance.fingerprint_params@)
}

/// Whether the signature has a formal named `name`.
fn has_formal(params: &Vec<ParamSpec>, name: &str) -> (r: bool)
    ensures
        r == exists|j: int| 0 <= j < params@.len() && #[trigger] params@[j].name@ == name@,
{
    let mut j: usize = 0;
    while j < params.len()
        invariant
            j <= params@.len(),
            forall|x: int| 0 <= x < j ==> (#[trigger] params@[x]).name@ != name@,
        decreases params.len() - j,
    {
        if str_eq(params[j].name.as_str(), name) {
            return true;
        }
        j = j + 1;
    }
    false
}

/// Whether an assertion stub has the standalone type-check provenance.
pub fn assertion_is_provenanced(signature: &FunctionSig, assertion: &AssertionSpec) -> (r: bool)
    ensures
        r == provenanced_spec(*signature, *assertion),
{
    if assertion.provenance.kind != AssertionProvenanceKind::StandaloneTypesCheck {
        return false;
    }
    let fingerprints = &assertion.provenance.fingerprint_params;
    proof {
        reveal_strlit("arg");
        reveal_strlit("call");
    }
    if !(fingerprints.len() == 2 && str_eq(fingerprints[0].as_str(), "arg") && str_eq(
        fingerprints[1].as_str(),
        "call",
    )) {
        return false;
    }
    let mut k: usize = 0;
    while k < fingerprints.len()
        invariant
            k <= fingerprints@.len(),
            fingerprints@ == assertion.provenance.fingerprint_params@,
            forall|x: int|
                0 <= x < k ==> exists|j: int|
                    0 <= j < signature.params@.len() && #[trigger] signature.params@[j].name@ == (
                    #[trigger] fingerprints@[x])@,
        decreases fingerprints.len() - k,
    {
        if !has_formal(&signature.params, fingerprints[k].as_str()) {
            return false;
        }
        k = k + 1;
    }
    true
}

} // verus!
