use ry_checker::narrow::{Narrowing, NarrowingBranch, apply_narrowing_branch, type_is_exactly_tested_family};
use ry_checker::scope::Scope;
use ry_checker::typeshed::InjectionMode;
use ry_checker::types::{Length, Mode, RType, copy_type};

#[test]
fn exactly_tested_family_covers_groups_but_not_mixed_unions() {
    let character = RType::scalar(Mode::Character);
    let numeric = RType::scalar(Mode::Integer).join(RType::scalar(Mode::Double));
    let mixed = RType::scalar(Mode::Character).join(RType::scalar(Mode::Integer));
    assert!(type_is_exactly_tested_family(&character, &character));
    assert!(type_is_exactly_tested_family(&numeric, &numeric));
    assert!(type_is_exactly_tested_family(&RType::scalar(Mode::Integer), &numeric));
    assert!(!type_is_exactly_tested_family(&mixed, &character));
    assert!(!type_is_exactly_tested_family(&mixed, &numeric));
    assert!(!type_is_exactly_tested_family(&RType::scalar(Mode::List), &character));
}

#[test]
fn positive_and_negated_union_guards_keep_their_distinct_rules() {
    let declared = RType::union(vec![RType::scalar(Mode::Integer), RType::scalar(Mode::Character)]);
    let mut positive = Scope::new();
    positive.insert("x", copy_type(&declared));
    let mut negative = positive.clone();
    let target = RType::scalar(Mode::Double);
    assert_eq!(
        apply_narrowing_branch(
            &mut positive,
            &Narrowing::Positive { var: "x".into(), target: RType::scalar(Mode::Double) },
            NarrowingBranch::Then,
        ),
        None
    );
    assert_eq!(positive.get("x"), Some(&declared));
    assert_eq!(
        apply_narrowing_branch(
            &mut negative,
            &Narrowing::Negative { var: "x".into(), target },
            NarrowingBranch::Else,
        ),
        Some("x")
    );
    assert_eq!(negative.get("x").map(|ty| ty.mode), Some(Mode::Double));
}

#[test]
fn in_place_narrowing_preserves_parameter_and_scope_metadata() {
    let mut scope = Scope::new().with_unknown_data_mask();
    scope.mark_search_path_unknown();
    scope.insert_parameter_default("x", RType::scalar(Mode::Null));
    scope.mark_list_origin("x");
    scope.set_function_alias("x", "base::identity".into());
    scope.mark_lexical_function("x");
    scope.insert_parameter("untouched", RType::scalar(Mode::Integer));
    scope.set_function_alias("untouched", "other".into());
    scope.mark_lexical_function("untouched");
    scope.tidy_injection = Some(InjectionMode::Full);
    apply_narrowing_branch(
        &mut scope,
        &Narrowing::Positive { var: "x".into(), target: RType::scalar(Mode::Double) },
        NarrowingBranch::Then,
    );
    assert_eq!(scope.get("x").map(|ty| ty.mode), Some(Mode::Double));
    assert!(scope.is_parameter("x") && scope.is_default_parameter("x"));
    assert!(scope.has_list_origin("x") && scope.narrowed_bindings.iter().any(|name| name == "x"));
    assert!(scope.function_alias("x").is_none() && !scope.is_lexical_function("x"));
    assert_eq!(scope.get("untouched").map(|ty| ty.mode), Some(Mode::Integer));
    assert!(scope.is_parameter("untouched") && scope.is_lexical_function("untouched"));
    assert_eq!(scope.function_alias("untouched"), Some("other"));
    assert!(scope.data_mask_unknown && scope.search_path_unknown);
    assert_eq!(scope.tidy_injection, Some(InjectionMode::Full));
    assert!(!scope.unreachable);
}

#[test]
fn selected_scalar_guard_distinguishes_null_locals_from_defaults() {
    for default_parameter in [false, true] {
        let mut scope = Scope::new();
        if default_parameter {
            scope.insert_parameter_default("x", RType::scalar(Mode::Null));
        } else {
            scope.insert("x", RType::scalar(Mode::Null));
        }
        let narrowing = Narrowing::ScalarElse { var: "x".into(), target: None };
        assert_eq!(apply_narrowing_branch(&mut scope, &narrowing, NarrowingBranch::Then), None);
        assert!(!scope.unreachable);
        let changed = apply_narrowing_branch(&mut scope, &narrowing, NarrowingBranch::Else);
        assert_eq!(changed, default_parameter.then_some("x"));
        assert_eq!(scope.unreachable, !default_parameter);
        assert_eq!(
            scope.get("x").map(|ty| ty.mode),
            Some(if default_parameter { Mode::Opaque } else { Mode::Null })
        );
        if default_parameter {
            assert_eq!(scope.get("x").map(|ty| ty.length), Some(Length::One));
            assert!(scope.is_parameter("x") && scope.is_default_parameter("x"));
        }
    }
}
