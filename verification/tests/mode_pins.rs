use ry_checker::modes::{
    expected_type_label, modes_compatible, standalone_check_provably_rejects, types_intersect,
    types_provably_incompatible,
};
use ry_checker::narrow::{Narrowing, apply_narrowing};
use ry_checker::scope::Scope;
use ry_checker::types::{Length, Mode, RType};

fn union(modes: &[Mode]) -> RType {
    RType::union(modes.iter().map(|mode| RType::scalar(*mode)).collect())
}

#[test]
fn modes_compatible_pins_the_coercion_view() {
    for (actual, target, compatible) in [
        (Mode::Opaque, Mode::Double, true),
        (Mode::Union, Mode::Double, true),
        (Mode::Null, Mode::Double, true),
        (Mode::Logical, Mode::Double, true),
        (Mode::Integer, Mode::Logical, true),
        (Mode::Double, Mode::Integer, true),
        (Mode::Character, Mode::Double, false),
        (Mode::Double, Mode::Character, false),
        (Mode::Complex, Mode::Double, false),
        (Mode::Double, Mode::Complex, true),
    ] {
        assert_eq!(modes_compatible(&actual, &target), compatible, "{actual:?} into {target:?}");
    }
}

#[test]
fn types_intersect_pins_mode_overlap() {
    let double = RType::scalar(Mode::Double);
    let character = RType::scalar(Mode::Character);
    let numeric_union = union(&[Mode::Integer, Mode::Double]);
    let opaque_member_union = union(&[Mode::Character, Mode::Opaque]);
    for (left, right, overlap) in [
        (&double, &double, true),
        (&character, &double, false),
        (&numeric_union, &double, true),
        (&double, &numeric_union, true),
        (&numeric_union, &character, false),
        (&RType::unknown(), &double, false),
        (&double, &RType::unknown(), false),
        (&RType::unknown(), &RType::unknown(), true),
        (&opaque_member_union, &double, false),
        (&opaque_member_union, &character, true),
    ] {
        assert_eq!(types_intersect(left, right), overlap, "{left:?} vs {right:?}");
    }
}

#[test]
fn types_provably_incompatible_pins_argument_checking() {
    let double = RType::scalar(Mode::Double);
    let character = RType::scalar(Mode::Character);
    for (actual, expected, incompatible) in [
        (&character, &double, true),
        (&RType::scalar(Mode::Integer), &double, false),
        (&double, &RType::scalar(Mode::Logical), false),
        (&RType::scalar(Mode::Complex), &double, true),
        (&RType::unknown(), &double, false),
        (&double, &RType::unknown(), false),
        (&union(&[Mode::Double, Mode::Opaque]), &character, false),
        (&union(&[Mode::Character, Mode::Double]), &double, false),
        (&RType::scalar(Mode::List), &double, true),
    ] {
        assert_eq!(
            types_provably_incompatible(actual, expected),
            incompatible,
            "{actual:?} vs {expected:?}"
        );
    }
}

#[test]
fn expected_type_label_pins_message_text() {
    for (expected, label) in [
        (&RType::scalar(Mode::Double), "double"),
        (&RType::unknown(), "unknown"),
        (&union(&[Mode::Logical, Mode::Integer, Mode::Double]), "numeric"),
        (&union(&[Mode::Integer, Mode::Double, Mode::Complex]), "numeric"),
    ] {
        assert_eq!(expected_type_label(expected), label, "{expected:?}");
    }
}

#[test]
fn standalone_check_pins_exact_assertions() {
    let double = RType::scalar(Mode::Double);
    let character = RType::scalar(Mode::Character);
    let nullable_character =
        RType::union(vec![RType::new(Mode::Null, Length::Zero), RType::scalar(Mode::Character)]);
    for (actual, expected, rejects) in [
        (&character, &double, true),
        (&double, &double, false),
        (&RType::scalar(Mode::Integer), &double, true),
        (&double, &RType::new(Mode::Double, Length::Known(2)), true),
        (&double, &RType::new(Mode::Double, Length::Unknown), false),
        (&RType::unknown(), &double, false),
        (&character, &nullable_character, false),
        (&double, &nullable_character, true),
    ] {
        assert_eq!(
            standalone_check_provably_rejects(actual, expected),
            rejects,
            "{actual:?} vs {expected:?}"
        );
    }
}

#[test]
fn guards_install_over_opaque_defaults_and_confirmed_members() {
    for (as_default, existing) in [
        (true, RType::unknown()),
        (true, union(&[Mode::Character, Mode::Opaque])),
        (false, union(&[Mode::Integer, Mode::Double])),
    ] {
        let target = RType::scalar(Mode::Double);
        if as_default {
            assert!(
                !types_intersect(&existing, &target),
                "opaque default must be disjoint from the guard: {existing:?}"
            );
        } else {
            assert!(
                types_intersect(&existing, &target),
                "confirmed-member union must overlap the guard: {existing:?}"
            );
        }
        let note = format!("guard must install its type over {existing:?}");
        let mut base = Scope::new();
        if as_default {
            base.insert_parameter_default("x", existing);
        } else {
            base.insert("x", existing);
        }
        let (then_scope, ..) =
            apply_narrowing(&base, &Narrowing::Positive { var: "x".to_string(), target });
        assert_eq!(then_scope.get("x").map(|t| t.mode), Some(Mode::Double), "{note}");
    }
}
