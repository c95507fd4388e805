use ry_checker::ast::{Arg, BinOpKind, DoubleLit, Expr, IndexKind, Span, UnaryOpKind};
use ry_checker::scope::Scope;
use ry_checker::subscript::{
    SelectSlotRole, SelectSubscript, assigned_column_name, bare_name, base_subscript_receiver,
    conservative_element_type, dollar_receiver_mode_description, extract_literal_int, is_dplyr_control_arg,
    is_nse_symbol_fn, is_return_call, known_null_arithmetic_operand, literal_negative_exclusion_length,
    positive_numeric_index, select_subscript_form, span_of, subset_vector, table_index_receiver,
};
use ry_checker::types::{ClassVector, ColumnSchema, Length, Mode, RType};

const S: Span = Span { start: 0, end: 0 };

fn ident(name: &str) -> Expr {
    Expr::Ident { name: name.to_string(), span: S }
}

fn arg(name: Option<&str>, value: Expr) -> Arg {
    Arg { name: name.map(str::to_string), value, span: S }
}

fn neg(e: Expr) -> Expr {
    Expr::UnaryOp { op: UnaryOpKind::Neg, expr: Box::new(e), span: S }
}

fn classed(mode: Mode, names: &[&str]) -> RType {
    let mut t = RType::new(mode, Length::Unknown);
    t.class = ClassVector { known: true, names: names.iter().map(|s| s.to_string()).collect() };
    t
}

fn union(modes: &[Mode]) -> RType {
    RType {
        mode: Mode::Union,
        length: Length::One,
        class: ClassVector { known: true, names: Vec::new() },
        members: Some(modes.iter().map(|m| RType::new(*m, Length::One)).collect()),
        columns: None,
    }
}

#[test]
fn table_receivers_and_element_fallbacks() {
    assert!(table_index_receiver(&classed(Mode::List, &["data.table", "data.frame"])));
    assert!(!table_index_receiver(&classed(Mode::List, &["data.table", "matrix"])));
    assert!(table_index_receiver(&RType::unknown()));
    assert!(!table_index_receiver(&RType::new(Mode::List, Length::One)));
    assert_eq!(conservative_element_type(&RType::new(Mode::List, Length::Known(3))).mode, Mode::Opaque);
    let e = conservative_element_type(&RType::new(Mode::Double, Length::Known(3)));
    assert_eq!((e.mode, e.length), (Mode::Double, Length::One));
}

#[test]
fn receiver_descriptions_name_every_member() {
    assert_eq!(dollar_receiver_mode_description(&RType::new(Mode::Character, Length::One)), "character");
    assert_eq!(
        dollar_receiver_mode_description(&union(&[Mode::Integer, Mode::Double, Mode::Logical])),
        "integer` or `double` or `logical"
    );
}

#[test]
fn base_receivers_follow_base_subsetting() {
    assert!(base_subscript_receiver(&RType::new(Mode::Integer, Length::One)));
    assert!(base_subscript_receiver(&classed(Mode::List, &["data.frame"])));
    assert!(!base_subscript_receiver(&classed(Mode::List, &["tbl_df", "data.frame"])));
    assert!(!base_subscript_receiver(&classed(Mode::List, &["data.table", "data.frame"])));
    assert!(!base_subscript_receiver(&RType::unknown()));
    assert!(base_subscript_receiver(&union(&[Mode::Integer, Mode::Null])));
    let context = SelectSubscript { receiver: classed(Mode::List, &["data.table"]), role: SelectSlotRole::J };
    assert!(select_subscript_form(Some(&context), UnaryOpKind::Neg, Mode::Character));
    assert!(!select_subscript_form(Some(&context), UnaryOpKind::Neg, Mode::Integer));
    assert!(select_subscript_form(Some(&context), UnaryOpKind::Not, Mode::List));
    let base = SelectSubscript { receiver: RType::new(Mode::List, Length::One), role: SelectSlotRole::J };
    assert!(!select_subscript_form(Some(&base), UnaryOpKind::Neg, Mode::Character));
    assert!(!select_subscript_form(None, UnaryOpKind::Neg, Mode::Character));
}

#[test]
fn positive_indices_and_negative_exclusions() {
    let range = Expr::BinOp {
        op: BinOpKind::Colon,
        lhs: Box::new(Expr::Integer(1, S)),
        rhs: Box::new(Expr::Integer(3, S)),
        span: S,
    };
    assert!(positive_numeric_index(&range));
    let c = Expr::Call {
        func: Box::new(ident("c")),
        args: vec![arg(None, Expr::Integer(2, S)), arg(None, Expr::Integer(0, S))],
        span: S,
    };
    assert!(!positive_numeric_index(&c));
    assert_eq!(literal_negative_exclusion_length(Length::Known(3), &neg(Expr::Integer(1, S))), Some(Length::Known(2)));
    assert_eq!(literal_negative_exclusion_length(Length::Known(2), &neg(Expr::Integer(2, S))), Some(Length::One));
    assert_eq!(literal_negative_exclusion_length(Length::Known(2), &neg(Expr::Integer(5, S))), Some(Length::Known(2)));
    assert_eq!(literal_negative_exclusion_length(Length::Unknown, &neg(Expr::Integer(1, S))), None);
    assert_eq!(literal_negative_exclusion_length(Length::Known(3), &Expr::Integer(1, S)), None);
}

#[test]
fn vector_subsets_take_the_index_length() {
    let base = RType::new(Mode::Double, Length::Known(10));
    let index = RType::new(Mode::Integer, Length::Known(3));
    let range = Expr::BinOp {
        op: BinOpKind::Colon,
        lhs: Box::new(Expr::Integer(1, S)),
        rhs: Box::new(Expr::Integer(3, S)),
        span: S,
    };
    let r = subset_vector(&base, &index, &range).expect("a vector subset");
    assert_eq!((r.mode, r.length), (Mode::Double, Length::Known(3)));
    let r = subset_vector(&base, &RType::new(Mode::Integer, Length::One), &neg(Expr::Integer(2, S))).unwrap();
    assert_eq!(r.length, Length::Known(9));
    let r = subset_vector(&base, &RType::new(Mode::Logical, Length::Known(10)), &ident("keep")).unwrap();
    assert_eq!(r.length, Length::Unknown);
    assert!(subset_vector(&RType::unknown(), &index, &range).is_none());
    let null = RType::new(Mode::Null, Length::Zero);
    assert_eq!(subset_vector(&null, &index, &range).unwrap().mode, Mode::Null);
}

#[test]
fn spans_literals_and_return_calls() {
    let span = Span { start: 3, end: 9 };
    assert_eq!(span_of(&Expr::Integer(1, span)), span);
    assert_eq!(span_of(&Expr::Ident { name: "x".to_string(), span }), span);
    assert_eq!(extract_literal_int(&Expr::Integer(4, S)), Some(4));
    let two = Expr::Double(DoubleLit { whole: Some(2), positive: true, trunc: Some(2) }, S);
    assert_eq!(extract_literal_int(&two), Some(2));
    assert_eq!(extract_literal_int(&ident("n")), None);
    let ret = Expr::Call { func: Box::new(ident("return")), args: vec![], span: S };
    assert!(is_return_call(&ret));
    assert!(!is_return_call(&ident("return")));
}

#[test]
fn column_names_of_dollar_and_double_bracket() {
    let dollar = vec![arg(Some("price"), ident("price"))];
    assert_eq!(assigned_column_name(IndexKind::Dollar, &dollar), Some("price"));
    let double = vec![arg(None, Expr::String("qty".to_string(), S))];
    assert_eq!(assigned_column_name(IndexKind::Double, &double), Some("qty"));
    assert_eq!(assigned_column_name(IndexKind::Double, &vec![arg(None, ident("k"))]), None);
    assert_eq!(assigned_column_name(IndexKind::Single, &double), None);
}

#[test]
fn missing_fields_of_complete_local_lists_are_null() {
    let mut scope = Scope::new();
    let mut t = RType::new(Mode::List, Length::Known(1));
    t.columns = Some(ColumnSchema {
        columns: vec![("a".to_string(), RType::new(Mode::Integer, Length::One))],
        complete: true,
        locally_constructed: true,
    });
    scope.insert("cfg", t);
    let access = |field: &str| Expr::Index {
        base: Box::new(ident("cfg")),
        kind: IndexKind::Dollar,
        args: vec![arg(Some(field), ident(field))],
        span: S,
    };
    assert!(known_null_arithmetic_operand(&access("b"), &scope));
    assert!(!known_null_arithmetic_operand(&access("a"), &scope));
    assert!(known_null_arithmetic_operand(&Expr::Null(S), &scope));
    assert!(!known_null_arithmetic_operand(&ident("cfg"), &scope));
}

#[test]
fn qualified_names_and_listed_helpers() {
    assert_eq!(bare_name("rlang::enquo"), "enquo");
    assert_eq!(bare_name("pkg:::hidden"), "hidden");
    assert_eq!(bare_name("plain"), "plain");
    assert!(is_nse_symbol_fn("data.table::setkey"));
    assert!(!is_nse_symbol_fn("setnames"));
    assert!(is_dplyr_control_arg(".by"));
    assert!(!is_dplyr_control_arg("by"));
}
