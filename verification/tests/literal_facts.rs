use ry_checker::ast::{Arg, Expr, Span};
use ry_checker::literals::{
    ClassLiteral, build_data_frame_schema, build_named_schema, decimal_text, is_registered_ffi_wrapper,
    literal_callee_mode, longest_arg_length, parse_class_literal,
};
use ry_checker::types::{Length, Mode, RType};

const S: Span = Span { start: 0, end: 0 };

fn ident(name: &str) -> Expr {
    Expr::Ident { name: name.to_string(), span: S }
}

fn string(s: &str) -> Expr {
    Expr::String(s.to_string(), S)
}

fn arg(name: Option<&str>, value: Expr) -> Arg {
    Arg { name: name.map(str::to_string), value, span: S }
}

fn c_call(args: Vec<Expr>) -> Expr {
    Expr::Call { func: Box::new(ident("c")), args: args.into_iter().map(|v| arg(None, v)).collect(), span: S }
}

fn ty(mode: Mode, length: Length) -> RType {
    RType::new(mode, length)
}

#[test]
fn ffi_wrapper_name() {
    assert!(is_registered_ffi_wrapper("call_with_cleanup"));
    assert!(!is_registered_ffi_wrapper(".Call"));
}

#[test]
fn class_literals() {
    assert!(matches!(parse_class_literal(&string("tbl")), ClassLiteral::Single(s) if s == "tbl"));
    match parse_class_literal(&c_call(vec![string("a"), string("b")])) {
        ClassLiteral::Multi(v) => assert_eq!(v, vec!["a".to_string(), "b".to_string()]),
        _ => panic!("a class vector"),
    }
    assert!(matches!(parse_class_literal(&c_call(vec![string("a"), ident("b")])), ClassLiteral::Unknown));
    assert!(matches!(parse_class_literal(&c_call(vec![])), ClassLiteral::Unknown));
    assert!(matches!(parse_class_literal(&ident("cls")), ClassLiteral::Unknown));
}

#[test]
fn literal_callees_report_their_own_mode() {
    assert_eq!(literal_callee_mode(&string("f")), Some(Mode::Character));
    assert_eq!(literal_callee_mode(&Expr::Integer(1, S)), Some(Mode::Integer));
    assert_eq!(literal_callee_mode(&Expr::Null(S)), Some(Mode::Null));
    assert_eq!(literal_callee_mode(&ident("f")), None);
}

#[test]
fn recycled_length_is_the_longest_known() {
    assert_eq!(longest_arg_length(&vec![]), Length::One);
    assert_eq!(
        longest_arg_length(&vec![ty(Mode::Integer, Length::Known(3)), ty(Mode::Integer, Length::Known(5))]),
        Length::Known(5)
    );
    assert_eq!(
        longest_arg_length(&vec![ty(Mode::Integer, Length::Zero), ty(Mode::Integer, Length::One)]),
        Length::One
    );
    assert_eq!(
        longest_arg_length(&vec![ty(Mode::Integer, Length::Known(3)), ty(Mode::Integer, Length::Unknown)]),
        Length::Unknown
    );
}

#[test]
fn decimals() {
    assert_eq!(decimal_text(0), "0");
    assert_eq!(decimal_text(7), "7");
    assert_eq!(decimal_text(1203), "1203");
}

#[test]
fn list_schemas_name_positional_fields_by_position() {
    let args = vec![arg(Some("a"), ident("x")), arg(None, ident("y")), arg(Some("`b c`"), ident("z"))];
    let types = vec![ty(Mode::Integer, Length::One), ty(Mode::Character, Length::Known(2))];
    let schema = build_named_schema(&types, &args).expect("a schema");
    let names: Vec<&str> = schema.columns.iter().map(|(n, _)| n.as_str()).collect();
    assert_eq!(names, vec!["a", "[[1]]", "b c"]);
    assert_eq!(schema.columns[0].1.mode, Mode::Integer);
    assert_eq!(schema.columns[1].1.length, Length::Known(2));
    // No type was supplied for the third field.
    assert_eq!(schema.columns[2].1.mode, Mode::Opaque);
    assert!(schema.complete);
    assert!(!schema.locally_constructed);
    assert!(build_named_schema(&vec![], &vec![]).is_none());
}

#[test]
fn data_frame_schemas_name_identifier_columns() {
    let args = vec![arg(None, ident("height")), arg(Some("w"), ident("weight"))];
    let types = vec![ty(Mode::Double, Length::Known(4)), ty(Mode::Double, Length::Known(4))];
    let schema = build_data_frame_schema(&types, &args).expect("a schema");
    let names: Vec<&str> = schema.columns.iter().map(|(n, _)| n.as_str()).collect();
    assert_eq!(names, vec!["height", "w"]);
    let args = vec![arg(None, Expr::Integer(1, S))];
    assert!(build_data_frame_schema(&types, &args).is_none());
}
