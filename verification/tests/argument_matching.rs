use ry_checker::ast::{Arg, Expr, Span};
use ry_checker::matching::{closest_parameter, match_arguments};
use ry_checker::modes::types_provably_incompatible;
use ry_checker::typeshed::{ParamSpec, bound_argument_index};
use ry_checker::types::{Mode, RType};

fn argument(name: Option<&str>) -> Arg {
    Arg {
        name: name.map(str::to_string),
        value: Expr::Null(Span { start: 0, end: 0 }),
        span: Span { start: 0, end: 0 },
    }
}

fn spec(name: &str) -> ParamSpec {
    ParamSpec { name: name.to_string(), type_: None, required: false, default: None, demand_only: false }
}

fn exact_names_before_positionals() {
    let args = [argument(Some("second")), argument(None)];
    let matched = match_arguments(&["first", "second"], &args);
    assert_eq!(matched.param_for_arg, vec![Some(1), Some(0)]);
    assert_eq!(matched.bound_params, vec![true, true]);
}

fn exact_match_removed_before_partial() {
    let args = [argument(Some("alpha")), argument(Some("al"))];
    let matched = match_arguments(&["alpha", "alpine"], &args);
    assert_eq!(matched.param_for_arg, vec![Some(0), Some(1)]);
    assert!(matched.unmatched_named.is_empty());
}

fn unique_partial() {
    let args = [argument(Some("alp"))];
    let matched = match_arguments(&["alpha", "beta"], &args);
    assert_eq!(matched.param_for_arg, vec![Some(0)]);
    assert!(matched.unmatched_named.is_empty());
}

fn ambiguous_partial() {
    let args = [argument(Some("al"))];
    let matched = match_arguments(&["alpha", "alpine"], &args);
    assert_eq!(matched.param_for_arg, vec![None]);
    assert_eq!(matched.unmatched_named, vec![0]);
}

fn dots_absorb() {
    let args = [argument(None), argument(None), argument(Some("extra"))];
    let matched = match_arguments(&["x", "...", "after"], &args);
    assert_eq!(matched.param_for_arg, vec![Some(0), None, None]);
    assert_eq!(matched.unmatched_named, vec![2]);
    assert_eq!(matched.dots, Some(1));
}

fn formal_lookup() {
    let params = ["file", "local", "..."].into_iter().map(spec).collect::<Vec<_>>();
    assert_eq!(bound_argument_index(&params, &[argument(None), argument(None)], "local"), Some(1));
    assert_eq!(
        bound_argument_index(&params, &[argument(Some("local")), argument(Some("file"))], "local"),
        Some(0)
    );
    assert_eq!(bound_argument_index(&params, &[argument(Some("lo"))], "local"), Some(0));
}

fn exact_after_dots() {
    let args = [argument(Some("after")), argument(Some("aft"))];
    let matched = match_arguments(&["x", "...", "after"], &args);
    assert_eq!(matched.param_for_arg, vec![Some(2), None]);
}

fn opaque_union_member_silent() {
    let actual = RType::union(vec![RType::unknown(), RType::scalar(Mode::Character)]);
    let expected = RType::scalar(Mode::Double);
    assert!(!types_provably_incompatible(&actual, &expected));
}

fn closest_within_two() {
    assert_eq!(closest_parameter("lenght", &["length", "x"]), Some("length"));
    assert_eq!(closest_parameter("unrelated", &["length", "x"]), None);
}

#[test]
fn args_exact_names_are_matched_before_positionals() {
    exact_names_before_positionals();
}

#[test]
fn args_exact_match_is_removed_before_partial_matching() {
    exact_match_removed_before_partial();
}

#[test]
fn args_unique_partial_name_matches() {
    unique_partial();
}

#[test]
fn args_ambiguous_partial_name_stays_unmatched() {
    ambiguous_partial();
}

#[test]
fn args_dots_absorb_remaining_arguments_and_stop_positionals() {
    dots_absorb();
}

#[test]
fn args_formal_lookup_supports_positional_exact_and_partial_matching() {
    formal_lookup();
}

#[test]
fn args_exact_name_after_dots_still_matches_but_partial_does_not() {
    exact_after_dots();
}

#[test]
fn args_opaque_union_member_keeps_type_check_silent() {
    opaque_union_member_silent();
}

#[test]
fn args_closest_parameter_is_limited_to_edit_distance_two() {
    closest_within_two();
}

#[test]
fn misc_exact_names_are_matched_before_positionals() {
    exact_names_before_positionals();
}

#[test]
fn misc_exact_match_is_removed_before_partial_matching() {
    exact_match_removed_before_partial();
}

#[test]
fn misc_unique_partial_name_matches() {
    unique_partial();
}

#[test]
fn misc_ambiguous_partial_name_stays_unmatched() {
    ambiguous_partial();
}

#[test]
fn misc_dots_absorb_remaining_arguments_and_stop_positionals() {
    dots_absorb();
}

#[test]
fn misc_formal_lookup_supports_positional_exact_and_partial_matching() {
    formal_lookup();
}

#[test]
fn misc_exact_name_after_dots_still_matches_but_partial_does_not() {
    exact_after_dots();
}

#[test]
fn misc_opaque_union_member_keeps_type_check_silent() {
    opaque_union_member_silent();
}

#[test]
fn misc_closest_parameter_is_limited_to_edit_distance_two() {
    closest_within_two();
}
