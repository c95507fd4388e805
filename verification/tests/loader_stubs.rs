use ry_checker::ast::{Arg, Expr, Span};
use ry_checker::loaders::{
    AssertionProvenance, AssertionProvenanceKind, AssertionSpec, assertion_is_provenanced,
    scope_effect_populates_current_scope,
};
use ry_checker::typeshed::{
    ConditionalScopeEffect, DefaultCurrentScope, FunctionSig, ParamSpec, ScopeCondition, ScopeEffect,
};

const S: Span = Span { start: 0, end: 0 };

fn sig(params: &[&str], effect: Option<ScopeEffect>, conditional: Option<ConditionalScopeEffect>) -> FunctionSig {
    FunctionSig {
        params: params
            .iter()
            .map(|n| ParamSpec { name: n.to_string(), type_: None, required: false, default: None, demand_only: false })
            .collect(),
        scope_effect: effect,
        conditional_scope_effect: conditional,
        eval: Vec::new(),
        data_mask_source: None,
        schema_effect: None,
        injection: Vec::new(),
        return_spec: None,
    }
}

fn arg(name: Option<&str>, value: Expr) -> Arg {
    Arg { name: name.map(str::to_string), value, span: S }
}

fn source_like() -> FunctionSig {
    // source(file, local = FALSE): populates the caller only with local = TRUE,
    // or at the top level by default.
    sig(
        &["file", "local"],
        None,
        Some(ConditionalScopeEffect {
            effect: ScopeEffect::UnknownBindings,
            current_scope_when: ScopeCondition { param: "local".to_string(), equals: true },
            default_current_scope: DefaultCurrentScope::TopLevel,
        }),
    )
}

#[test]
fn loaders_populate_the_scope_their_control_names() {
    let file = || arg(None, Expr::String("a.R".to_string(), S));
    let s = source_like();
    assert!(scope_effect_populates_current_scope(&s, &[file()], true));
    assert!(!scope_effect_populates_current_scope(&s, &[file()], false));
    assert!(scope_effect_populates_current_scope(&s, &[file(), arg(Some("local"), Expr::Logical(true, S))], false));
    assert!(!scope_effect_populates_current_scope(&s, &[file(), arg(None, Expr::Logical(false, S))], true));
    // An environment-valued control may be the caller's frame.
    let env = Expr::Ident { name: "env".to_string(), span: S };
    assert!(scope_effect_populates_current_scope(&s, &[file(), arg(Some("local"), env)], false));
    let always = sig(&["x"], Some(ScopeEffect::UnknownBindings), None);
    assert!(scope_effect_populates_current_scope(&always, &[], false));
    let none = sig(&["x"], None, None);
    assert!(!scope_effect_populates_current_scope(&none, &[], true));
}

#[test]
fn assertion_provenance_needs_the_standalone_fingerprint() {
    let assertion = |kind: AssertionProvenanceKind, prints: &[&str]| AssertionSpec {
        subject_param: "x".to_string(),
        provenance: AssertionProvenance { kind, fingerprint_params: prints.iter().map(|s| s.to_string()).collect() },
    };
    let check_string = sig(&["x", "...", "arg", "call"], None, None);
    assert!(assertion_is_provenanced(&check_string, &assertion(AssertionProvenanceKind::StandaloneTypesCheck, &["arg", "call"])));
    assert!(!assertion_is_provenanced(&check_string, &assertion(AssertionProvenanceKind::Other, &["arg", "call"])));
    assert!(!assertion_is_provenanced(&check_string, &assertion(AssertionProvenanceKind::StandaloneTypesCheck, &["call", "arg"])));
    let without_call = sig(&["x", "arg"], None, None);
    assert!(!assertion_is_provenanced(&without_call, &assertion(AssertionProvenanceKind::StandaloneTypesCheck, &["arg", "call"])));
}
