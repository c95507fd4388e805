use ry_checker::ast::{Expr, Param, Span, Stmt};
use ry_checker::checker::Checker;
use ry_checker::ops_chooser::{LiteralFunction, literal_function};
use ry_checker::recall::ResolutionFacts;
use ry_checker::scope::Scope;
use ry_checker::types::{ClassVector, Length, Mode, RType};

const S: Span = Span { start: 0, end: 0 };

fn checker() -> Checker {
    Checker {
        diagnostics: Vec::new(),
        discarding: false,
        source: String::new(),
        validate_user_call_arguments: false,
        fn_table: Vec::new(),
        enclosing_formals: Vec::new(),
        formal_reads: Vec::new(),
        loop_frames: Vec::new(),
        trusted_defusers: None,
        stubs: Default::default(),
    }
}

fn quiet() -> ResolutionFacts {
    ResolutionFacts {
        base_callees: Vec::new(),
        scalar_reductions: Vec::new(),
        dispatching_generics: Vec::new(),
        bare_loaded: false,
        syntax_rebound: false,
        rebound_operators: Vec::new(),
    }
}

fn classed(class: &str) -> RType {
    RType::new(Mode::Double, Length::One).with_class(ClassVector::single(class))
}

fn method(id: usize, mode: Mode, choice: Option<bool>) -> LiteralFunction {
    LiteralFunction { id, mode, choice, accepts_two: true, accepts_six: true }
}

fn function(params: &[&str], value: Expr) -> Expr {
    Expr::Function {
        params: params.iter().map(|p| Param { name: p.to_string(), default: None }).collect(),
        body: vec![Stmt::Expr(value)],
        span: S,
    }
}

#[test]
fn one_method_object_for_both_classes_gives_its_mode() {
    let table = vec![
        ("+.a".to_string(), method(1, Mode::Character, None)),
        ("+.b".to_string(), method(1, Mode::Character, None)),
    ];
    let r = checker().dispatch("+", &classed("a"), &classed("b"), &Scope::new(), &quiet(), &table).expect("dispatched");
    assert_eq!((r.mode, r.length), (Mode::Character, Length::One));
    let swapped = checker().dispatch("+", &classed("b"), &classed("a"), &Scope::new(), &quiet(), &table).expect("dispatched");
    assert_eq!((swapped.mode, swapped.length), (r.mode, r.length));
}

#[test]
fn distinct_methods_are_chosen_by_choose_ops_method() {
    let mut table = vec![
        ("+.a".to_string(), method(1, Mode::Character, None)),
        ("+.b".to_string(), method(2, Mode::Logical, None)),
    ];
    // Nothing chooses: unknown.
    let r = checker().dispatch("+", &classed("a"), &classed("b"), &Scope::new(), &quiet(), &table).expect("claim");
    assert_eq!(r.mode, Mode::Opaque);
    // The left class's chooser says FALSE, the right one's TRUE: the right method.
    table.push(("chooseOpsMethod.a".to_string(), method(3, Mode::Logical, Some(false))));
    table.push(("chooseOpsMethod.b".to_string(), method(4, Mode::Logical, Some(true))));
    let r = checker().dispatch("+", &classed("a"), &classed("b"), &Scope::new(), &quiet(), &table).expect("claim");
    assert_eq!((r.mode, r.length), (Mode::Logical, Length::One));
}

#[test]
fn classless_or_default_operands_make_no_claim() {
    let table = vec![("+.a".to_string(), method(1, Mode::Character, None))];
    let plain = RType::new(Mode::Double, Length::One);
    assert!(checker().dispatch("+", &plain, &classed("a"), &Scope::new(), &quiet(), &table).is_none());
    assert!(checker().dispatch("+", &classed("default"), &classed("a"), &Scope::new(), &quiet(), &table).is_none());
}

#[test]
fn rebound_operator_or_unknown_methods_give_the_opaque_type() {
    let table = vec![
        ("+.a".to_string(), method(1, Mode::Character, None)),
        ("+.b".to_string(), method(1, Mode::Character, None)),
    ];
    let mut facts = quiet();
    facts.rebound_operators = vec!["+".to_string()];
    let r = checker().dispatch("+", &classed("a"), &classed("b"), &Scope::new(), &facts, &table).expect("claim");
    assert_eq!(r.mode, Mode::Opaque);
    // Lexical methods that are not literal functions: opaque when the classes differ.
    let mut scope = Scope::new();
    scope.insert("+.x", RType::new(Mode::Function, Length::One));
    scope.insert("+.y", RType::new(Mode::Function, Length::One));
    let r = checker().dispatch("+", &classed("x"), &classed("y"), &scope, &quiet(), &Vec::new()).expect("claim");
    assert_eq!(r.mode, Mode::Opaque);
}

#[test]
fn literal_functions_record_their_constant_and_formals() {
    let scope = Scope::new();
    let f = literal_function(&function(&["e1", "e2"], Expr::String("s".to_string(), S)), &scope, &quiet(), &Vec::new(), 7)
        .expect("literal");
    assert_eq!(f, LiteralFunction { id: 7, mode: Mode::Character, choice: None, accepts_two: true, accepts_six: false });
    let chooser = literal_function(
        &function(&["x", "y", "..."], Expr::Logical(true, S)),
        &scope,
        &quiet(),
        &Vec::new(),
        8,
    )
    .expect("literal");
    assert_eq!(chooser.choice, Some(true));
    assert!(chooser.accepts_six);
    assert!(!chooser.accepts_two);
    // A body that is not a constant tells nothing.
    let call = Expr::Call { func: Box::new(Expr::Ident { name: "f".to_string(), span: S }), args: vec![], span: S };
    assert!(literal_function(&function(&["e1", "e2"], call), &scope, &quiet(), &Vec::new(), 9).is_none());
}

#[test]
fn aliases_share_the_function_object() {
    let table = vec![("m".to_string(), method(5, Mode::Integer, None))];
    let alias = literal_function(&Expr::Ident { name: "`m`".to_string(), span: S }, &Scope::new(), &quiet(), &table, 6);
    assert_eq!(alias.map(|f| f.id), Some(5));
    let mut facts = quiet();
    facts.bare_loaded = true;
    assert!(literal_function(&Expr::Ident { name: "m".to_string(), span: S }, &Scope::new(), &facts, &table, 6).is_none());
}
