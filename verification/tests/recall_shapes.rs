use ry_checker::ast::{Arg, BinOpKind, DoubleLit, Expr, IndexKind, Param, Span, Stmt, UnaryOpKind};
use ry_checker::pipes::{PipeForm, SourceFile, has_escaped_names, is_placeholder_chain};
use ry_checker::checker::Checker;
use ry_checker::scope::Scope;
use ry_checker::shapes::{
    bare_callee, call_argument, mistyped_element_name, unary_call_callee, unary_call_to,
    zero_or_negative_literal,
};
use ry_checker::types::{ClassVector, Length, Mode, RType};

const S: Span = Span { start: 0, end: 0 };

fn ident(name: &str) -> Expr {
    Expr::Ident { name: name.to_string(), span: S }
}

fn call(func: Expr, args: Vec<(Option<&str>, Expr)>) -> Expr {
    Expr::Call {
        func: Box::new(func),
        args: args
            .into_iter()
            .map(|(name, value)| Arg { name: name.map(str::to_string), value, span: S })
            .collect(),
        span: S,
    }
}

fn neg(e: Expr) -> Expr {
    Expr::UnaryOp { op: UnaryOpKind::Neg, expr: Box::new(e), span: S }
}

fn double(whole: Option<i64>, positive: bool) -> Expr {
    Expr::Double(DoubleLit { whole, positive, trunc: None }, S)
}

fn checker() -> Checker {
    Checker {
        diagnostics: Vec::new(),
        discarding: false,
        source: String::new(),
        validate_user_call_arguments: false,
        fn_table: Vec::new(),
        enclosing_formals: Vec::new(),
        formal_reads: Vec::new(),
        loop_frames: Vec::new(),
        trusted_defusers: None,
        stubs: Default::default(),
    }
}

#[test]
fn direct_callees_lose_their_qualifier() {
    assert_eq!(bare_callee(&call(ident("base::length"), vec![])), Some("length".to_string()));
    assert_eq!(bare_callee(&call(Expr::String("f".to_string(), S), vec![])), Some("f".to_string()));
    assert_eq!(bare_callee(&call(call(ident("g"), vec![]), vec![])), None);
    assert_eq!(bare_callee(&ident("f")), None);
}

#[test]
fn unary_calls_need_one_positional_argument() {
    let single = call(ident("base::class"), vec![(None, ident("x"))]);
    assert!(unary_call_to(&single, "class"));
    assert!(!unary_call_to(&single, "length"));
    let named = call(ident("class"), vec![(Some("x"), ident("x"))]);
    assert!(!unary_call_to(&named, "class"));
    let two = call(ident("class"), vec![(None, ident("x")), (None, ident("y"))]);
    assert!(!unary_call_to(&two, "class"));
    match unary_call_callee(&single) {
        Some((name, value)) => {
            assert_eq!(name, "base::class");
            assert!(matches!(value, Expr::Ident { name, .. } if name == "x"));
        }
        None => panic!("a unary call"),
    }
    assert!(unary_call_callee(&two).is_none());
}

#[test]
fn literals_at_most_zero() {
    assert!(zero_or_negative_literal(&Expr::Integer(0, S)));
    assert!(!zero_or_negative_literal(&Expr::Integer(1, S)));
    assert!(zero_or_negative_literal(&neg(Expr::Integer(1, S))));
    assert!(zero_or_negative_literal(&neg(double(None, true))));
    assert!(zero_or_negative_literal(&double(Some(0), false)));
    assert!(!zero_or_negative_literal(&double(None, true)));
    assert!(!zero_or_negative_literal(&neg(neg(Expr::Integer(1, S)))));
    assert!(zero_or_negative_literal(&neg(neg(Expr::Integer(0, S)))));
    assert!(!zero_or_negative_literal(&ident("n")));
}

#[test]
fn mistyped_names_and_first_arguments() {
    assert_eq!(mistyped_element_name(&ident("a")), Some("a"));
    assert_eq!(mistyped_element_name(&Expr::String("b".to_string(), S)), Some("b"));
    assert_eq!(mistyped_element_name(&call(ident("names"), vec![(None, ident("y"))])), None);
    let c = call(ident("f"), vec![(Some("k"), Expr::Integer(3, S))]);
    assert!(matches!(call_argument(&c), Some(Expr::Integer(3, _))));
    assert!(call_argument(&call(ident("f"), vec![])).is_none());
    assert!(call_argument(&ident("f")).is_none());
}

#[test]
fn scalar_locals_by_construction() {
    let c = checker();
    let mut scope = Scope::new();
    scope.insert("n", RType::new(Mode::Integer, Length::One));
    scope.insert("v", RType::new(Mode::Integer, Length::Known(3)));
    scope.insert("l", RType::new(Mode::List, Length::One));
    let mut classed = RType::new(Mode::Double, Length::One);
    classed.class = ClassVector { known: true, names: vec!["Date".to_string()] };
    scope.insert("d", classed);
    scope.insert_parameter("p", RType::new(Mode::Logical, Length::One));
    assert_eq!(
        c.scalar_by_construction_local(&ident("n"), &scope),
        Some("`n` is a length-1 integer".to_string())
    );
    assert_eq!(c.scalar_by_construction_local(&ident("v"), &scope), None);
    assert_eq!(c.scalar_by_construction_local(&ident("l"), &scope), None);
    assert_eq!(c.scalar_by_construction_local(&ident("d"), &scope), None);
    assert_eq!(c.scalar_by_construction_local(&ident("p"), &scope), None);
    assert_eq!(c.scalar_by_construction_local(&ident("missing"), &scope), None);
}

#[test]
fn pipe_placeholders_and_chains() {
    assert_eq!(PipeForm::of(BinOpKind::PipeNative), PipeForm::Native);
    assert_eq!(PipeForm::of(BinOpKind::PipeForward), PipeForm::Magrittr);
    assert!(PipeForm::Native.is_placeholder(&ident("_")));
    assert!(!PipeForm::Native.is_placeholder(&ident(".")));
    assert!(PipeForm::Magrittr.is_placeholder(&ident(".")));
    let dollar = |base: Expr| Expr::Index {
        base: Box::new(base),
        kind: IndexKind::Dollar,
        args: vec![Arg { name: Some("mpg".to_string()), value: ident("mpg"), span: S }],
        span: S,
    };
    assert!(is_placeholder_chain(&dollar(ident("_")), PipeForm::Native));
    assert!(is_placeholder_chain(&dollar(dollar(ident("."))), PipeForm::Magrittr));
    assert!(!is_placeholder_chain(&dollar(ident(".")), PipeForm::Native));
    assert!(!is_placeholder_chain(&ident("_"), PipeForm::Native));
}

#[test]
fn escaped_names_anywhere_in_a_file() {
    let plain = SourceFile { stmts: vec![Stmt::Expr(call(ident("f"), vec![(None, ident("x"))]))] };
    assert!(!has_escaped_names(&plain));
    let in_call = SourceFile { stmts: vec![Stmt::Expr(call(ident("f"), vec![(None, ident("a\\u0062"))]))] };
    assert!(has_escaped_names(&in_call));
    let formal = Expr::Function {
        params: vec![Param { name: "`x\\ty`".to_string(), default: None }],
        body: Vec::new(),
        span: S,
    };
    let in_formal = SourceFile { stmts: vec![Stmt::Assign { target: ident("g"), value: formal, span: S }] };
    assert!(has_escaped_names(&in_formal));
    let loop_var = SourceFile {
        stmts: vec![Stmt::For { name: "i\\n".to_string(), iter: ident("xs"), body: Vec::new(), span: S }],
    };
    assert!(has_escaped_names(&loop_var));
}
