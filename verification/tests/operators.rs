use ry_checker::subscript::{is_operator_generic, is_operator_symbol};

#[test]
fn non_dispatch_operators_are_not_operator_generics() {
    for non_generic in ["&", "|", "&&", "||", "!", ":", "<-", "<<-", "=", "~", "$", "@", "?", "%in%", "+.foo"] {
        assert!(
            !is_operator_generic(non_generic),
            "{non_generic:?} is not an Arith/Compare operator and must not be recognized"
        );
    }
}

#[test]
fn arith_and_compare_operators_are_operator_generics() {
    for generic in ["+", "-", "*", "/", "^", "%%", "%/%", "==", "!=", "<", ">", "<=", ">="] {
        assert!(is_operator_generic(generic), "{generic:?}");
    }
}

#[test]
fn percent_operators_are_generics_but_not_plain_symbols() {
    assert!(is_operator_generic("%%"));
    assert!(!is_operator_symbol("%%"));
    assert!(is_operator_symbol("<<-"));
    assert!(!is_operator_generic("<<-"));
}
