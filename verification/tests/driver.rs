use ry_checker::ast::{Arg, BinOpKind, DoubleLit, Expr, IndexKind, Param, Span, Stmt, UnaryOpKind};
use ry_checker::checker::Checker;
use ry_checker::scope::Scope;
use ry_checker::stubs::{S3Method, S3Source};
use ry_checker::types::{Length, Mode, RType};
use ry_checker::typeshed::{EvalMode, FunctionSig, ParamSpec, ReturnLength, ReturnMode, ReturnSpec};

const S: Span = Span { start: 0, end: 0 };

fn sp(start: usize, end: usize) -> Span {
    Span { start, end }
}

fn checker() -> Checker {
    Checker {
        diagnostics: Vec::new(),
        discarding: false,
        source: String::new(),
        validate_user_call_arguments: false,
        fn_table: Vec::new(),
        enclosing_formals: Vec::new(),
        formal_reads: Vec::new(),
        loop_frames: Vec::new(),
        trusted_defusers: None,
        stubs: Default::default(),
    }
}

fn ident(name: &str) -> Expr {
    Expr::Ident { name: name.to_string(), span: S }
}

fn ident_at(name: &str, span: Span) -> Expr {
    Expr::Ident { name: name.to_string(), span }
}

fn int_lit(v: i64) -> Expr {
    Expr::Integer(v, S)
}

fn dbl(v: i64) -> Expr {
    Expr::Double(DoubleLit { whole: Some(v), positive: v > 0, trunc: Some(v.unsigned_abs() as usize) }, S)
}

fn frac() -> Expr {
    Expr::Double(DoubleLit { whole: None, positive: true, trunc: Some(22) }, S)
}

fn string(s: &str) -> Expr {
    Expr::String(s.to_string(), S)
}

fn arg(name: Option<&str>, value: Expr) -> Arg {
    Arg { name: name.map(str::to_string), value, span: S }
}

fn call(func: &str, args: Vec<Arg>) -> Expr {
    Expr::Call { func: Box::new(ident(func)), args, span: S }
}

fn binop(op: BinOpKind, lhs: Expr, rhs: Expr, span: Span) -> Expr {
    Expr::BinOp { op, lhs: Box::new(lhs), rhs: Box::new(rhs), span }
}

fn assign(name: &str, value: Expr) -> Stmt {
    Stmt::Assign { target: ident(name), value, span: S }
}

fn codes(c: &Checker) -> Vec<String> {
    c.diagnostics.iter().map(|d| d.code.clone()).collect()
}

fn spec(name: &str) -> ParamSpec {
    ParamSpec { name: name.to_string(), type_: None, required: false, default: None, demand_only: false }
}

fn sig(names: &[&str], eval: Vec<(String, EvalMode)>, return_spec: Option<ReturnSpec>) -> FunctionSig {
    FunctionSig {
        params: names.iter().map(|n| spec(n)).collect(),
        scope_effect: None,
        conditional_scope_effect: None,
        eval,
        data_mask_source: None,
        schema_effect: None,
        injection: Vec::new(),
        return_spec,
    }
}

fn walk(c: &mut Checker, body: &Vec<Stmt>, scope: &mut Scope) -> Vec<RType> {
    let mut collected = Vec::new();
    c.walk_stmts(body, body.len(), scope, &mut collected);
    collected
}

#[test]
fn quickstart_reports_character_arithmetic_and_missing_column() {
    let body = vec![
        assign("x", binop(BinOpKind::Add, string("a"), int_lit(1), sp(5, 13))),
        assign(
            "d",
            call(
                "data.frame",
                vec![
                    arg(Some("mpg"), call("c", vec![arg(None, dbl(21)), arg(None, frac())])),
                    arg(Some("disp"), call("c", vec![arg(None, dbl(160)), arg(None, dbl(160))])),
                ],
            ),
        ),
        Stmt::Expr(call(
            "mean",
            vec![arg(
                None,
                Expr::Index { base: Box::new(ident("d")), kind: IndexKind::Dollar, args: vec![arg(Some("dispp"), ident("dispp"))], span: sp(60, 67) },
            )],
        )),
    ];
    let mut c = checker();
    let mut scope = Scope::new();
    walk(&mut c, &body, &mut scope);
    let d = scope.get("d").unwrap();
    assert_eq!(d.mode, Mode::List);
    assert!(d.class.names.iter().any(|n| n == "data.frame"));
    let cols = d.columns.as_ref().unwrap();
    assert!(cols.complete);
    assert_eq!(cols.columns.len(), 2);
    assert_eq!(codes(&c), vec!["RY040".to_string(), "RY060".to_string()]);
    assert_eq!(c.diagnostics[0].span, sp(5, 13));
    assert_eq!(c.diagnostics[1].span, sp(60, 67));
    assert_eq!(c.diagnostics[1].message, "column `dispp` not found in data frame schema; available columns: mpg, disp");
}

#[test]
fn character_plus_integer_reports_ry040() {
    let mut c = checker();
    let mut scope = Scope::new();
    c.infer(&binop(BinOpKind::Add, string("a"), int_lit(1), sp(0, 8)), &mut scope);
    assert_eq!(codes(&c), vec!["RY040".to_string()]);
    assert_eq!(c.diagnostics[0].span, sp(0, 8));
}

#[test]
fn walked_unbound_name_reports_ry010() {
    let mut c = checker();
    let mut scope = Scope::new();
    c.infer(&ident_at("nowhere", sp(3, 10)), &mut scope);
    assert_eq!(codes(&c), vec!["RY010".to_string()]);
    assert_eq!(c.diagnostics[0].span, sp(3, 10));
}

#[test]
fn bound_name_has_its_assigned_type() {
    let mut c = checker();
    let mut scope = Scope::new();
    walk(&mut c, &vec![assign("x", int_lit(3))], &mut scope);
    let t = c.infer(&ident("x"), &mut scope);
    assert!(c.diagnostics.is_empty());
    assert_eq!(t.mode, Mode::Integer);
    assert_eq!(t.length, Length::One);
}

#[test]
fn colon_between_literals_is_an_integer_vector_of_known_length() {
    let mut c = checker();
    let mut scope = Scope::new();
    let t = c.infer(&binop(BinOpKind::Colon, int_lit(1), int_lit(5), S), &mut scope);
    assert_eq!(t.mode, Mode::Integer);
    assert_eq!(t.length, Length::Known(5));
}

#[test]
fn c_of_doubles_concatenates() {
    let mut c = checker();
    let mut scope = Scope::new();
    let t = c.infer(&call("c", vec![arg(None, dbl(1)), arg(None, dbl(2)), arg(None, dbl(3))]), &mut scope);
    assert_eq!(t.mode, Mode::Double);
    assert_eq!(t.length, Length::Known(3));
}

#[test]
fn return_statements_are_collected_in_order() {
    let body = vec![
        Stmt::If {
            cond: Expr::Logical(true, S),
            then: vec![Stmt::Return { value: Some(int_lit(1)), span: S }],
            else_: Some(vec![Stmt::Return { value: Some(string("a")), span: S }]),
            span: S,
        },
        Stmt::Return { value: None, span: S },
    ];
    let mut c = checker();
    let mut scope = Scope::new();
    let collected = walk(&mut c, &body, &mut scope);
    assert_eq!(collected.len(), 3);
    assert_eq!(collected[0].mode, Mode::Integer);
    assert_eq!(collected[1].mode, Mode::Character);
    assert_eq!(collected[2].mode, Mode::Null);
}

#[test]
fn for_loop_binds_the_element_type() {
    let body = vec![Stmt::For {
        name: "i".to_string(),
        iter: binop(BinOpKind::Colon, int_lit(1), int_lit(3), S),
        body: vec![assign("y", ident("i"))],
        span: S,
    }];
    let mut c = checker();
    let mut scope = Scope::new();
    walk(&mut c, &body, &mut scope);
    assert!(c.diagnostics.is_empty());
    let i = scope.get("i").unwrap();
    assert_eq!(i.mode, Mode::Integer);
    assert_eq!(i.length, Length::One);
    assert_eq!(scope.get("y").unwrap().mode, Mode::Integer);
}

#[test]
fn function_body_sees_its_formals() {
    let body = vec![assign(
        "f",
        Expr::Function {
            params: vec![Param { name: "a".to_string(), default: None }],
            body: vec![Stmt::Expr(ident("a")), Stmt::Expr(ident("b"))],
            span: S,
        },
    )];
    let mut c = checker();
    let mut scope = Scope::new();
    walk(&mut c, &body, &mut scope);
    assert_eq!(codes(&c), vec!["RY010".to_string()]);
    assert_eq!(scope.get("f").unwrap().mode, Mode::Function);
}

#[test]
fn block_value_is_its_last_statement() {
    let mut c = checker();
    let mut scope = Scope::new();
    let t = c.infer(&Expr::Block { body: vec![assign("z", int_lit(1)), Stmt::Expr(string("s"))], span: S }, &mut scope);
    assert_eq!(t.mode, Mode::Character);
    assert_eq!(scope.get("z").unwrap().mode, Mode::Integer);
}

#[test]
fn stub_signature_gives_declared_return() {
    let mut c = checker();
    c.stubs.functions.push((
        "nchar".to_string(),
        sig(
            &["x"],
            Vec::new(),
            Some(ReturnSpec::Declared { mode: ReturnMode::Exact(Mode::Integer), length: ReturnLength::Arg0, class: Vec::new() }),
        ),
    ));
    let mut scope = Scope::new();
    let t = c.infer(&call("nchar", vec![arg(None, call("c", vec![arg(None, string("a")), arg(None, string("b"))]))]), &mut scope);
    assert_eq!(t.mode, Mode::Integer);
    assert_eq!(t.length, Length::Known(2));
}

#[test]
fn quoted_arguments_are_not_inferred() {
    let mut c = checker();
    c.stubs.functions.push(("quote".to_string(), sig(&["expr"], vec![("expr".to_string(), EvalMode::QuotedExpression)], None)));
    let mut scope = Scope::new();
    c.infer(&call("quote", vec![arg(None, ident("nowhere"))]), &mut scope);
    assert!(c.diagnostics.is_empty());
    c.infer(&call("print", vec![arg(None, ident("nowhere"))]), &mut scope);
    assert_eq!(codes(&c), vec!["RY010".to_string()]);
}

#[test]
fn unknown_argument_to_stub_is_reported() {
    let mut c = checker();
    let mut f = sig(&["x"], Vec::new(), None);
    f.params[0].required = true;
    c.stubs.functions.push(("f".to_string(), f));
    let mut scope = Scope::new();
    c.infer(&call("f", vec![arg(None, int_lit(1)), arg(Some("y"), int_lit(2))]), &mut scope);
    assert_eq!(codes(&c), vec!["RY090".to_string()]);
}

#[test]
fn namespace_qualified_call_resolves_the_bare_name() {
    let mut c = checker();
    c.stubs.functions.push((
        "nchar".to_string(),
        sig(&["x"], Vec::new(), Some(ReturnSpec::Declared { mode: ReturnMode::Exact(Mode::Integer), length: ReturnLength::Exact(Length::One), class: Vec::new() })),
    ));
    let mut scope = Scope::new();
    let t = c.infer(&call("base::nchar", vec![arg(None, string("a"))]), &mut scope);
    assert_eq!(t.mode, Mode::Integer);
}

#[test]
fn operator_dispatches_to_a_project_method() {
    let mut c = checker();
    c.stubs.s3_methods.push(S3Method {
        generic: "+".to_string(),
        class: "money".to_string(),
        source: S3Source::Project(Some(RType::new(Mode::Character, Length::One))),
    });
    let mut money = RType::new(Mode::Double, Length::One);
    money.class.known = true;
    money.class.names.push("money".to_string());
    let plain = RType::new(Mode::Double, Length::One);
    let r = c.try_s3_binop_dispatch(BinOpKind::Add, &money, &plain).unwrap();
    assert_eq!(r.mode, Mode::Character);
    assert!(c.try_s3_binop_dispatch(BinOpKind::Sub, &money, &plain).is_none());
    assert!(c.try_s3_binop_dispatch(BinOpKind::In, &money, &plain).is_none());
    let r2 = c.try_s3_binop_dispatch(BinOpKind::Add, &plain, &money).unwrap();
    assert_eq!(r2.mode, Mode::Character);
}

#[test]
fn group_method_gives_opaque_result() {
    let mut c = checker();
    c.stubs.s3_methods.push(S3Method { generic: "Ops".to_string(), class: "money".to_string(), source: S3Source::Project(None) });
    let mut money = RType::new(Mode::Double, Length::One);
    money.class.known = true;
    money.class.names.push("money".to_string());
    let r = c.try_s3_binop_dispatch(BinOpKind::Mul, &money, &money).unwrap();
    assert_eq!(r.mode, Mode::Opaque);
    let u = c.try_s3_unary_dispatch(UnaryOpKind::Neg, &money).unwrap();
    assert_eq!(u.mode, Mode::Opaque);
}

#[test]
fn unknown_class_on_concrete_mode_dispatches_to_opaque() {
    let c = checker();
    let mut t = RType::new(Mode::Double, Length::One);
    t.class.known = false;
    let r = c.try_s3_binop_dispatch(BinOpKind::Add, &t, &RType::new(Mode::Double, Length::One)).unwrap();
    assert_eq!(r.mode, Mode::Opaque);
}

#[test]
fn assignment_inside_short_circuit_operand_is_kept() {
    let mut c = checker();
    let mut scope = Scope::new();
    let cond = binop(
        BinOpKind::AndAnd,
        Expr::Logical(true, S),
        binop(BinOpKind::Assign, ident("z"), int_lit(1), S),
        S,
    );
    c.infer(&cond, &mut scope);
    assert!(c.diagnostics.is_empty());
    assert_eq!(scope.get("z").unwrap().mode, Mode::Integer);
}

#[test]
fn literal_callee_reports_ry070() {
    let mut c = checker();
    let mut scope = Scope::new();
    let t = c.infer(&Expr::Call { func: Box::new(int_lit(1)), args: vec![arg(None, ident("nowhere"))], span: sp(0, 4) }, &mut scope);
    assert_eq!(codes(&c), vec!["RY070".to_string(), "RY010".to_string()]);
    assert_eq!(c.diagnostics[0].message, "cannot call a value of mode `integer`");
    assert_eq!(t.mode, Mode::Opaque);
}

#[test]
fn calling_a_bound_value_reports_ry070() {
    let body = vec![assign("x", int_lit(1)), Stmt::Expr(call("x", vec![arg(None, int_lit(2))]))];
    let mut c = checker();
    let mut scope = Scope::new();
    walk(&mut c, &body, &mut scope);
    assert_eq!(codes(&c), vec!["RY070".to_string()]);
    assert_eq!(c.diagnostics[0].message, "`x` is `integer`, not a function; cannot call it");
}

#[test]
fn calling_a_bound_function_is_silent() {
    let body = vec![
        assign("f", Expr::Function { params: Vec::new(), body: Vec::new(), span: S }),
        Stmt::Expr(call("f", Vec::new())),
    ];
    let mut c = checker();
    let mut scope = Scope::new();
    walk(&mut c, &body, &mut scope);
    assert!(c.diagnostics.is_empty());
}

#[test]
fn list_fields_are_read_back_through_dollar() {
    let body = vec![assign("r", call("list", vec![arg(Some("a"), int_lit(1)), arg(Some("b"), string("s"))]))];
    let mut c = checker();
    let mut scope = Scope::new();
    walk(&mut c, &body, &mut scope);
    let t = c.infer(
        &Expr::Index { base: Box::new(ident("r")), kind: IndexKind::Dollar, args: vec![arg(Some("b"), ident("b"))], span: S },
        &mut scope,
    );
    assert!(c.diagnostics.is_empty());
    assert_eq!(t.mode, Mode::Character);
}

#[test]
fn rep_with_literal_count_has_known_length() {
    let mut c = checker();
    let mut scope = Scope::new();
    let t = c.infer(&call("rep", vec![arg(None, int_lit(1)), arg(None, int_lit(3))]), &mut scope);
    assert_eq!(t.mode, Mode::Integer);
    assert_eq!(t.length, Length::Known(3));
}

#[test]
fn data_frame_of_a_single_record_keeps_its_fields() {
    let body = vec![
        assign("r", call("list", vec![arg(Some("a"), int_lit(1))])),
        assign("d", call("data.frame", vec![arg(None, ident("r"))])),
    ];
    let mut c = checker();
    let mut scope = Scope::new();
    walk(&mut c, &body, &mut scope);
    let d = scope.get("d").unwrap();
    assert!(d.class.names.iter().any(|n| n == "data.frame"));
    assert_eq!(d.columns.as_ref().unwrap().columns[0].0, "a");
}

#[test]
fn switch_joins_its_alternatives() {
    let mut c = checker();
    let mut scope = Scope::new();
    let t = c.infer(
        &call("switch", vec![arg(None, string("a")), arg(Some("a"), int_lit(1)), arg(Some("b"), int_lit(2))]),
        &mut scope,
    );
    assert_eq!(t.mode, Mode::Integer);
    assert_eq!(t.length, Length::One);
    let none = c.infer(&call("switch", vec![arg(None, string("a"))]), &mut scope);
    assert_eq!(none.mode, Mode::Opaque);
    assert!(c.diagnostics.is_empty());
}

#[test]
fn read_after_assignment_gives_the_assigned_type() {
    let mut c = checker();
    let mut scope = Scope::new();
    let written = c.infer(&binop(BinOpKind::Assign, ident("w"), string("s"), S), &mut scope);
    let read = c.infer(&ident("w"), &mut scope);
    assert_eq!(written.mode, Mode::Character);
    assert_eq!(read.mode, written.mode);
    assert_eq!(read.length, written.length);
    assert!(c.diagnostics.is_empty());
}

#[test]
fn two_argument_assign_binds_in_the_current_scope() {
    let mut c = checker();
    let mut scope = Scope::new();
    let t = c.infer(&call("assign", vec![arg(None, string("k")), arg(None, int_lit(4))]), &mut scope);
    assert_eq!(t.mode, Mode::Integer);
    assert_eq!(scope.get("k").unwrap().mode, Mode::Integer);
    assert!(c.diagnostics.is_empty());
}

#[test]
fn has_arg_is_a_logical_scalar_and_quotes_its_name() {
    let mut c = checker();
    let mut scope = Scope::new();
    let t = c.infer(&call("hasArg", vec![arg(None, ident("nowhere"))]), &mut scope);
    assert_eq!(t.mode, Mode::Logical);
    assert_eq!(t.length, Length::One);
    assert!(c.diagnostics.is_empty());
}

#[test]
fn colon_with_a_double_endpoint_is_a_double_vector() {
    let body = vec![assign("a", frac()), assign("b", int_lit(3))];
    let mut c = checker();
    let mut scope = Scope::new();
    walk(&mut c, &body, &mut scope);
    let t = c.infer(&binop(BinOpKind::Colon, ident("a"), int_lit(3), S), &mut scope);
    assert_eq!(t.mode, Mode::Double);
    let u = c.infer(&binop(BinOpKind::Colon, ident("b"), int_lit(5), S), &mut scope);
    assert_eq!(u.mode, Mode::Integer);
    assert!(c.diagnostics.is_empty());
}

#[test]
fn slot_access_is_opaque_and_silent() {
    let body = vec![assign("o", int_lit(1))];
    let mut c = checker();
    let mut scope = Scope::new();
    walk(&mut c, &body, &mut scope);
    let t = c.infer(
        &Expr::Index { base: Box::new(ident("o")), kind: IndexKind::Slot, args: vec![arg(Some("data"), ident("data"))], span: S },
        &mut scope,
    );
    assert_eq!(t.mode, Mode::Opaque);
    assert!(c.diagnostics.is_empty());
}
