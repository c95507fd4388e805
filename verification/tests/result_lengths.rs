use ry_checker::ast::{Arg, DoubleLit, Expr, Span, UnaryOpKind};
use ry_checker::result_length::{
    JsonLength, RecycledValuesSpec, ReturnLengthSpec, json_length_to_length, semantic_return_length,
    size_argument_length,
};
use ry_checker::types::{Length, Mode, RType};
use ry_checker::typeshed::ParamSpec;

const S: Span = Span { start: 0, end: 0 };

fn integer(value: i64) -> Expr {
    Expr::Integer(value, S)
}

fn double(whole: Option<i64>, positive: bool, trunc: Option<usize>) -> Expr {
    Expr::Double(DoubleLit { whole, positive, trunc }, S)
}

fn neg(e: Expr) -> Expr {
    Expr::UnaryOp { op: UnaryOpKind::Neg, expr: Box::new(e), span: S }
}

fn arg(name: Option<&str>, value: Expr) -> Arg {
    Arg { name: name.map(str::to_string), value, span: S }
}

fn param(name: &str) -> ParamSpec {
    ParamSpec { name: name.to_string(), type_: None, required: false, default: None, demand_only: false }
}

fn ty(mode: Mode, length: Length) -> RType {
    RType::new(mode, length)
}

fn paste_rule() -> ReturnLengthSpec {
    ReturnLengthSpec::RecycledValues(RecycledValuesSpec {
        value_params: vec!["...".to_string()],
        control_params: vec!["sep".to_string(), "collapse".to_string(), "recycle0".to_string()],
        collapse: "collapse".to_string(),
        recycle0: "recycle0".to_string(),
    })
}

fn paste_params() -> Vec<ParamSpec> {
    ["...", "sep", "collapse", "recycle0"].into_iter().map(param).collect()
}

#[test]
fn literal_length_specs_map_exactly() {
    assert_eq!(json_length_to_length(Some(JsonLength::Known(0))), Length::Zero);
    assert_eq!(json_length_to_length(Some(JsonLength::Known(1))), Length::One);
    assert_eq!(json_length_to_length(Some(JsonLength::Known(7))), Length::Known(7));
    assert_eq!(json_length_to_length(Some(JsonLength::LongestArg)), Length::Unknown);
    assert_eq!(json_length_to_length(None), Length::Unknown);
}

#[test]
fn size_arguments_truncate_toward_zero() {
    assert_eq!(size_argument_length(None, 3), Length::Known(3));
    assert_eq!(size_argument_length(None, 1), Length::One);
    assert_eq!(size_argument_length(Some(&integer(5)), 1), Length::Known(5));
    assert_eq!(size_argument_length(Some(&integer(0)), 1), Length::Zero);
    // 2.5 truncates to 2.
    assert_eq!(size_argument_length(Some(&double(None, true, Some(2))), 1), Length::Known(2));
    // -0.5 truncates to -0, which is not negative.
    assert_eq!(size_argument_length(Some(&neg(double(None, true, Some(0)))), 1), Length::Zero);
    assert_eq!(size_argument_length(Some(&neg(integer(2))), 1), Length::Unknown);
    assert_eq!(size_argument_length(Some(&neg(integer(0))), 1), Length::Zero);
    assert_eq!(size_argument_length(Some(&Expr::Ident { name: "n".to_string(), span: S }), 1), Length::Unknown);
    // Infinite and NaN sizes stay unknown.
    assert_eq!(size_argument_length(Some(&double(None, true, None)), 1), Length::Unknown);
}

#[test]
fn param_value_rule_reads_the_bound_size() {
    let rule = ReturnLengthSpec::ParamValue { param: "length.out".to_string(), default_length: 1 };
    let params: Vec<ParamSpec> = ["x", "length.out"].into_iter().map(param).collect();
    let args = [arg(None, integer(1)), arg(Some("length.out"), integer(4))];
    let types = [ty(Mode::Integer, Length::One), ty(Mode::Integer, Length::One)];
    assert_eq!(semantic_return_length(Some(&rule), &params, &args, &types), Some(Length::Known(4)));
    // A partial name binds the formal too.
    let args = [arg(None, integer(1)), arg(Some("len"), integer(0))];
    assert_eq!(semantic_return_length(Some(&rule), &params, &args, &types), Some(Length::Zero));
    let args = [arg(None, integer(1))];
    assert_eq!(semantic_return_length(Some(&rule), &params, &args, &types[..1]), Some(Length::One));
}

#[test]
fn no_rule_or_sourceless_types_give_nothing() {
    let rule = ReturnLengthSpec::ParamValue { param: "n".to_string(), default_length: 2 };
    let params = vec![param("n")];
    assert_eq!(semantic_return_length(None, &params, &[], &[]), None);
    assert_eq!(semantic_return_length(Some(&rule), &params, &[], &[ty(Mode::Integer, Length::One)]), None);
    assert_eq!(semantic_return_length(Some(&rule), &params, &[], &[]), Some(Length::Known(2)));
}

#[test]
fn zero_if_any_param_zero_rule() {
    let rule = ReturnLengthSpec::ZeroIfAnyParamZero { params: vec!["x".to_string()] };
    let params: Vec<ParamSpec> = ["x", "y"].into_iter().map(param).collect();
    let args = [arg(None, integer(1)), arg(None, integer(2))];
    let empty = [ty(Mode::Integer, Length::Zero), ty(Mode::Integer, Length::One)];
    let full = [ty(Mode::Integer, Length::One), ty(Mode::Integer, Length::Zero)];
    assert_eq!(semantic_return_length(Some(&rule), &params, &args, &empty), Some(Length::Zero));
    assert_eq!(semantic_return_length(Some(&rule), &params, &args, &full), Some(Length::Unknown));
}

#[test]
fn recycled_values_take_the_longest_value() {
    let rule = paste_rule();
    let params = paste_params();
    let args = [arg(None, integer(1)), arg(None, integer(2)), arg(Some("sep"), integer(3))];
    let types = [
        ty(Mode::Character, Length::Known(3)),
        ty(Mode::Character, Length::One),
        ty(Mode::Character, Length::Known(9)),
    ];
    // `sep` is a control, not a value.
    assert_eq!(semantic_return_length(Some(&rule), &params, &args, &types), Some(Length::Known(3)));
}

#[test]
fn recycled_values_collapse_and_recycle0_controls() {
    let rule = paste_rule();
    let params = paste_params();
    let args = [arg(None, integer(1)), arg(Some("collapse"), integer(2))];
    let collapsed = [ty(Mode::Character, Length::Known(3)), ty(Mode::Character, Length::One)];
    assert_eq!(semantic_return_length(Some(&rule), &params, &args, &collapsed), Some(Length::One));
    let null_collapse = [ty(Mode::Character, Length::Known(3)), RType::new(Mode::Null, Length::Zero)];
    assert_eq!(semantic_return_length(Some(&rule), &params, &args, &null_collapse), Some(Length::Known(3)));
    let opaque_collapse = [ty(Mode::Character, Length::Known(3)), RType::unknown()];
    assert_eq!(semantic_return_length(Some(&rule), &params, &args, &opaque_collapse), Some(Length::Unknown));
    let args = [
        arg(None, integer(1)),
        arg(None, integer(2)),
        arg(Some("recycle0"), Expr::Logical(true, S)),
    ];
    let types = [
        ty(Mode::Character, Length::Zero),
        ty(Mode::Character, Length::Known(4)),
        ty(Mode::Logical, Length::One),
    ];
    assert_eq!(semantic_return_length(Some(&rule), &params, &args, &types), Some(Length::Zero));
    // Without recycle0 the empty value gives way to the longer one.
    let args = [arg(None, integer(1)), arg(None, integer(2))];
    assert_eq!(semantic_return_length(Some(&rule), &params, &args, &types[..2]), Some(Length::Known(4)));
}

#[test]
fn recycled_values_without_values_are_empty() {
    let rule = paste_rule();
    let params = paste_params();
    let args = [arg(Some("sep"), integer(1))];
    let types = [ty(Mode::Character, Length::One)];
    assert_eq!(semantic_return_length(Some(&rule), &params, &args, &types), Some(Length::Zero));
}
