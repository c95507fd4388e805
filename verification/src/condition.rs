//! Binary operators: the result of arithmetic, comparison and logic on data
//! frames, and the assignments a condition operand performs.
use vstd::prelude::*;
use crate::assigned::{ident_set, name_set};
use crate::ast::{Arg, BinOpKind, Expr, Stmt};
use crate::scope::{Scope, add_name, has_name, lookup, names_same, same_flags};
use crate::types::{ColumnSchema, Length, Mode, RType, class_eq, class_has, copy_class, copy_type, is_unknown_type, ty_eq};

verus! {

/// R's six comparison operators.
pub open spec fn comparison_spec(op: BinOpKind) -> bool {
    op == BinOpKind::Lt || op == BinOpKind::Le || op == BinOpKind::Gt || op == BinOpKind::Ge || op
        == BinOpKind::Eq || op == BinOpKind::Ne
}

/// Whether `op` is one of R's six comparison operators.
pub fn is_comparison(op: BinOpKind) -> (r: bool)
    ensures
        r == comparison_spec(op),
{
    match op {
        BinOpKind::Lt | BinOpKind::Le | BinOpKind::Gt | BinOpKind::Ge | BinOpKind::Eq
        | BinOpKind::Ne => true,
        _ => false,
    }
}

/// R's arithmetic operators.
pub open spec fn arithmetic_spec(op: BinOpKind) -> bool {
    op == BinOpKind::Add || op == BinOpKind::Sub || op == BinOpKind::Mul || op == BinOpKind::Div
        || op == BinOpKind::Pow || op == BinOpKind::Mod || op == BinOpKind::IDiv
}

/// The logical operators, vectorised and short-circuit.
pub open spec fn logic_spec(op: BinOpKind) -> bool {
    op == BinOpKind::And || op == BinOpKind::AndAnd || op == BinOpKind::Or || op
        == BinOpKind::OrOr
}

/// Whether `op` is arithmetic.
pub fn is_arithmetic(op: BinOpKind) -> (r: bool)
    ensures
        r == arithmetic_spec(op),
{
    match op {
        BinOpKind::Add | BinOpKind::Sub | BinOpKind::Mul | BinOpKind::Div | BinOpKind::Pow
        | BinOpKind::Mod | BinOpKind::IDiv => true,
        _ => false,
    }
}

/// The R symbol of a binary operator, for diagnostics.
pub open spec fn op_text(op: BinOpKind) -> Seq<char> {
    match op {
        BinOpKind::Add => "+"@,
        BinOpKind::Sub => "-"@,
        BinOpKind::Mul => "*"@,
        BinOpKind::Div => "/"@,
        BinOpKind::Pow => "^"@,
        BinOpKind::Mod => "%%"@,
        BinOpKind::IDiv => "%/%"@,
        BinOpKind::Colon => ":"@,
        BinOpKind::Lt => "<"@,
        BinOpKind::Le => "<="@,
        BinOpKind::Gt => ">"@,
        BinOpKind::Ge => ">="@,
        BinOpKind::Eq => "=="@,
        BinOpKind::Ne => "!="@,
        BinOpKind::And => "&"@,
        BinOpKind::AndAnd => "&&"@,
        BinOpKind::Or => "|"@,
        BinOpKind::OrOr => "||"@,
        BinOpKind::In => "%in%"@,
        BinOpKind::Assign => "<-"@,
        BinOpKind::SuperAssign => "<<-"@,
        BinOpKind::PipeForward => "%>%"@,
        BinOpKind::PipeNative => "|>"@,
        BinOpKind::PipeTee => "%T>%"@,
        BinOpKind::PipeAssign => "%<>%"@,
    }
}

/// The R source symbol of a binary operator.
pub fn op_symbol(op: BinOpKind) -> (r: &'static str)
    ensures
        r@ == op_text(op),
{
    match op {
        BinOpKind::Add => "+",
        BinOpKind::Sub => "-",
        BinOpKind::Mul => "*",
        BinOpKind::Div => "/",
        BinOpKind::Pow => "^",
        BinOpKind::Mod => "%%",
        BinOpKind::IDiv => "%/%",
        BinOpKind::Colon => ":",
        BinOpKind::Lt => "<",
        BinOpKind::Le => "<=",
        BinOpKind::Gt => ">",
        BinOpKind::Ge => ">=",
        BinOpKind::Eq => "==",
        BinOpKind::Ne => "!=",
        BinOpKind::And => "&",
        BinOpKind::AndAnd => "&&",
        BinOpKind::Or => "|",
        BinOpKind::OrOr => "||",
        BinOpKind::In => "%in%",
        BinOpKind::Assign => "<-",
        BinOpKind::SuperAssign => "<<-",
        BinOpKind::PipeForward => "%>%",
        BinOpKind::PipeNative => "|>",
        BinOpKind::PipeTee => "%T>%",
        BinOpKind::PipeAssign => "%<>%",
    }
}

/// The columns a data frame keeps under arithmetic: the same names, with
/// the operand types when `keep` holds and opaque types otherwise.
pub open spec fn kept_columns(src: Seq<(String, RType)>, out: Seq<(String, RType)>, keep: bool) -> bool {
    &&& out.len() == src.len()
    &&& forall|i: int|
        0 <= i < src.len() ==> (#[trigger] out[i]).0@ == src[i].0@ && if keep {
            ty_eq(out[i].1, src[i].1)
        } else {
            is_unknown_type(out[i].1)
        }
}

/// The result of `lhs op rhs` when one operand is a data frame: no answer
/// for other operators or when neither operand is classed `data.frame`;
/// opaque for comparison and logic; for arithmetic, a list with the
/// frame's length and class whose schema (if any) keeps the column names,
/// and keeps the column types only against a scalar non-frame operand.
pub open spec fn frame_binop_spec(op: BinOpKind, lhs: RType, rhs: RType, r: Option<RType>) -> bool {
    if !(comparison_spec(op) || logic_spec(op) || arithmetic_spec(op)) || !(class_has(
        lhs.class,
        "data.frame"@,
    ) || class_has(rhs.class, "data.frame"@)) {
        r is None
    } else if comparison_spec(op) || logic_spec(op) {
        r is Some && is_unknown_type(r->0)
    } else {
        let frame = if class_has(lhs.class, "data.frame"@) {
            lhs
        } else {
            rhs
        };
        let other = if class_has(lhs.class, "data.frame"@) {
            rhs
        } else {
            lhs
        };
        let keep = !class_has(other.class, "data.frame"@) && other.length == Length::One;
        &&& r is Some
        &&& r->0.mode == Mode::List
        &&& r->0.length == frame.length
        &&& class_eq(r->0.class, frame.class)
        &&& r->0.members is None
        &&& match frame.columns {
            None => r->0.columns is None,
            Some(schema) => r->0.columns is Some && r->0.columns->0.complete == schema.complete
                && r->0.columns->0.locally_constructed == schema.locally_constructed
                && kept_columns(schema.columns@, r->0.columns->0.columns@, keep),
        }
    }
}

/// Infer a binary operation with a data-frame operand.
pub fn data_frame_binop_result(op: BinOpKind, lhs: &RType, rhs: &RType) -> (r: Option<RType>)
    ensures
        frame_binop_spec(op, *lhs, *rhs, r),
{
    let is_compare = is_comparison(op);
    let is_logic = match op {
        BinOpKind::And | BinOpKind::AndAnd | BinOpKind::Or | BinOpKind::OrOr => true,
        _ => false,
    };
    if !(is_compare || is_logic || is_arithmetic(op)) {
        return None;
    }
    let (frame, other) = if lhs.class.contains("data.frame") {
        (lhs, rhs)
    } else if rhs.class.contains("data.frame") {
        (rhs, lhs)
    } else {
        return None;
    };
    if is_compare || is_logic {
        return Some(RType::unknown());
    }
    let result = RType::new(Mode::List, frame.length).with_class(copy_class(&frame.class));
    match &frame.columns {
        None => Some(result),
        Some(schema) => {
            let keep_types = !other.class.contains("data.frame") && other.length == Length::One;
            let mut columns: Vec<(String, RType)> = Vec::new();
            let mut i: usize = 0;
            while i < schema.columns.len()
                invariant
                    i <= schema.columns@.len(),
                    kept_columns(schema.columns@.take(i as int), columns@, keep_types),
                decreases schema.columns.len() - i,
            {
                let ty = if keep_types {
                    copy_type(&schema.columns[i].1)
                } else {
                    RType::unknown()
                };
                columns.push((schema.columns[i].0.clone(), ty));
                assert(schema.columns@.take(i + 1)[i as int] == schema.columns@[i as int]);
                i = i + 1;
            }
            assert(schema.columns@.take(schema.columns@.len() as int) =~= schema.columns@);
            Some(
                result.with_columns(
                    ColumnSchema {
                        columns,
                        complete: schema.complete,
                        locally_constructed: schema.locally_constructed,
                    },
                ),
            )
        },
    }
}

/// The names a condition operand binds when it is evaluated: identifier
/// targets of `<-`/`<<-` anywhere in it (both operands walked), and inside
/// `{ ... }` blocks the identifier targets of assignment statements (their
/// values walked) and bare expressions. Control statements, definitions,
/// returns and function literals bind nothing here.
pub open spec fn cond_names_expr(e: Expr) -> Set<Seq<char>>
    decreases e, 0int,
{
    match e {
        Expr::BinOp { op, lhs, rhs, .. } => (if op == BinOpKind::Assign || op
            == BinOpKind::SuperAssign {
            ident_set(*lhs)
        } else {
            Set::empty()
        }).union(cond_names_expr(*lhs)).union(cond_names_expr(*rhs)),
        Expr::Call { func, args, .. } => cond_names_expr(*func).union(cond_names_args(args@)),
        Expr::Index { base, args, .. } => cond_names_expr(*base).union(cond_names_args(args@)),
        Expr::UnaryOp { expr, .. } => cond_names_expr(*expr),
        Expr::If { cond, then, else_, .. } => cond_names_expr(*cond).union(cond_names_expr(*then)).union(
            match else_ {
                Some(b) => cond_names_expr(*b),
                None => Set::empty(),
            },
        ),
        Expr::Block { body, .. } => cond_names_stmts(body@),
        _ => Set::empty(),
    }
}

/// The names argument values bind (see `cond_names_expr`).
pub open spec fn cond_names_args(args: Seq<Arg>) -> Set<Seq<char>>
    decreases args, 0int,
{
    if args.len() == 0 {
        Set::empty()
    } else {
        cond_names_args(args.subrange(0, args.len() - 1)).union(
            cond_names_expr(args[args.len() - 1].value),
        )
    }
}

/// The names block statements bind (see `cond_names_expr`).
pub open spec fn cond_names_stmts(ss: Seq<Stmt>) -> Set<Seq<char>>
    decreases ss, 0int,
{
    if ss.len() == 0 {
        Set::empty()
    } else {
        cond_names_stmts(ss.subrange(0, ss.len() - 1)).union(cond_names_stmt(ss[ss.len() - 1]))
    }
}

/// The names one block statement binds (see `cond_names_expr`).
pub open spec fn cond_names_stmt(s: Stmt) -> Set<Seq<char>>
    decreases s, 0int,
{
    match s {
        Stmt::Assign { target, value, .. } => ident_set(target).union(cond_names_expr(value)),
        Stmt::Expr(e) => cond_names_expr(e),
        _ => Set::empty(),
    }
}

/// Record `expr`'s name when it is a plain identifier.
pub fn insert_bound_name(expr: &Expr, names: &mut Vec<String>)
    ensures
        name_set(final(names)@) == name_set(old(names)@).union(ident_set(*expr)),
{
    let ghost before = names@;
    if let Expr::Ident { name, .. } = expr {
        add_name(names, name.as_str());
    }
    assert(name_set(names@) =~= name_set(before).union(ident_set(*expr)));
}

fn collect_args(args: &Vec<Arg>, names: &mut Vec<String>)
    ensures
        name_set(final(names)@) == name_set(old(names)@).union(cond_names_args(args@)),
    decreases args, 0int,
{
    let ghost start = names@;
    let mut i: usize = 0;
    assert(args@.take(0) =~= Seq::<Arg>::empty());
    assert(name_set(names@) =~= name_set(start).union(cond_names_args(args@.take(0))));
    while i < args.len()
        invariant
            i <= args@.len(),
            name_set(names@) == name_set(start).union(cond_names_args(args@.take(i as int))),
        decreases args.len() - i,
    {
        proof {
            assert(decreases_to!(args => args@));
            assert(decreases_to!(args@ => args@[i as int]));
            assert(decreases_to!(args@[i as int] => args@[i as int].value));
        }
        collect_condition_assignment_names(&args[i].value, names);
        proof {
            let t = args@.take(i + 1);
            assert(t.subrange(0, t.len() - 1) =~= args@.take(i as int));
            assert(t[t.len() - 1] == args@[i as int]);
            assert(name_set(names@) =~= name_set(start).union(cond_names_args(t)));
        }
        i = i + 1;
    }
    assert(args@.take(args@.len() as int) =~= args@);
}

fn collect_stmts(ss: &Vec<Stmt>, names: &mut Vec<String>)
    ensures
        name_set(final(names)@) == name_set(old(names)@).union(cond_names_stmts(ss@)),
    decreases ss, 0int,
{
    let ghost start = names@;
    let mut i: usize = 0;
    assert(ss@.take(0) =~= Seq::<Stmt>::empty());
    assert(name_set(names@) =~= name_set(start).union(cond_names_stmts(ss@.take(0))));
    while i < ss.len()
        invariant
            i <= ss@.len(),
            name_set(names@) == name_set(start).union(cond_names_stmts(ss@.take(i as int))),
        decreases ss.len() - i,
    {
        proof {
            assert(decreases_to!(ss => ss@));
            assert(decreases_to!(ss@ => ss@[i as int]));
        }
        let ghost mid = names@;
        match &ss[i] {
            Stmt::Assign { target, value, .. } => {
                insert_bound_name(target, names);
                collect_condition_assignment_names(value, names);
            },
            Stmt::Expr(e) => collect_condition_assignment_names(e, names),
            _ => {},
        }
        proof {
            let t = ss@.take(i + 1);
            assert(t.subrange(0, t.len() - 1) =~= ss@.take(i as int));
            assert(t[t.len() - 1] == ss@[i as int]);
            assert(name_set(names@) =~= name_set(mid).union(cond_names_stmt(ss@[i as int])));
            assert(name_set(names@) =~= name_set(start).union(cond_names_stmts(t)));
        }
        i = i + 1;
    }
    assert(ss@.take(ss@.len() as int) =~= ss@);
}

/// Record the names assignments nested in a condition operand bind (see
/// `cond_names_expr`).
pub fn collect_condition_assignment_names(expr: &Expr, names: &mut Vec<String>)
    ensures
        name_set(final(names)@) == name_set(old(names)@).union(cond_names_expr(*expr)),
    decreases expr, 0int,
{
    let ghost before = names@;
    match expr {
        Expr::BinOp { op, lhs, rhs, .. } => {
            if *op == BinOpKind::Assign || *op == BinOpKind::SuperAssign {
                insert_bound_name(lhs, names);
            }
            collect_condition_assignment_names(lhs, names);
            collect_condition_assignment_names(rhs, names);
        },
        Expr::Call { func, args, .. } => {
            collect_condition_assignment_names(func, names);
            collect_args(args, names);
        },
        Expr::Index { base, args, .. } => {
            collect_condition_assignment_names(base, names);
            collect_args(args, names);
        },
        Expr::UnaryOp { expr: inner, .. } => collect_condition_assignment_names(inner, names),
        Expr::If { cond, then, else_, .. } => {
            collect_condition_assignment_names(cond, names);
            collect_condition_assignment_names(then, names);
            if let Some(b) = else_ {
                collect_condition_assignment_names(b, names);
            }
        },
        Expr::Block { body, .. } => collect_stmts(body, names),
        _ => {},
    }
    assert(name_set(names@) =~= name_set(before).union(cond_names_expr(*expr)));
}

/// Copy back into `scope` the bindings that the assignments in the
/// condition operand `expr` made in `evaluated`.
pub fn merge_condition_assignments(scope: &mut Scope, evaluated: &Scope, expr: &Expr)
    ensures
        forall|n: Seq<char>|
            #![trigger lookup(*final(scope), n)]
            cond_names_expr(*expr).contains(n) && lookup(*evaluated, n) is Some ==> lookup(
                *final(scope),
                n,
            ) is Some && ty_eq(lookup(*final(scope), n)->0, lookup(*evaluated, n)->0),
        forall|n: Seq<char>|
            #![trigger lookup(*final(scope), n)]
            !(cond_names_expr(*expr).contains(n) && lookup(*evaluated, n) is Some) ==> lookup(
                *final(scope),
                n,
            ) == lookup(*old(scope), n),
        same_flags(*old(scope), *final(scope)),
        names_same(old(scope).parameters@, final(scope).parameters@),
{
    let mut names: Vec<String> = Vec::new();
    assert(name_set(names@) =~= Set::<Seq<char>>::empty());
    collect_condition_assignment_names(expr, &mut names);
    assert(name_set(names@) =~= cond_names_expr(*expr));
    let ghost s0 = *scope;
    let mut i: usize = 0;
    while i < names.len()
        invariant
            i <= names@.len(),
            name_set(names@) == cond_names_expr(*expr),
            forall|n: Seq<char>|
                #![trigger lookup(*scope, n)]
                name_set(names@.take(i as int)).contains(n) && lookup(*evaluated, n) is Some ==> lookup(
                    *scope,
                    n,
                ) is Some && ty_eq(lookup(*scope, n)->0, lookup(*evaluated, n)->0),
            forall|n: Seq<char>|
                #![trigger lookup(*scope, n)]
                !(name_set(names@.take(i as int)).contains(n) && lookup(*evaluated, n) is Some)
                    ==> lookup(*scope, n) == lookup(s0, n),
            same_flags(s0, *scope),
            names_same(s0.parameters@, scope.parameters@),
        decreases names.len() - i,
    {
        let ghost before = *scope;
        let ghost ni = names@[i as int]@;
        proof {
            let t = names@.take(i + 1);
            assert forall|n: Seq<char>| name_set(t).contains(n) == (name_set(names@.take(i as int)).contains(n) || n == ni) by {
                if name_set(t).contains(n) {
                    let k = choose|k: int| 0 <= k < t.len() && #[trigger] t[k]@ == n;
                    if k < i {
                        assert(names@.take(i as int)[k] == t[k]);
                    }
                }
                if name_set(names@.take(i as int)).contains(n) {
                    let k = choose|k: int| 0 <= k < i && #[trigger] names@.take(i as int)[k]@ == n;
                    assert(t[k] == names@.take(i as int)[k]);
                }
                if n == ni {
                    assert(t[i as int]@ == n);
                }
            }
        }
        match evaluated.get(names[i].as_str()) {
            Some(ty) => {
                let copied = copy_type(ty);
                let ghost cg = copied;
                scope.insert(names[i].as_str(), copied);
                proof {
                    assert forall|n: Seq<char>| #![trigger lookup(*scope, n)]
                        name_set(names@.take(i + 1)).contains(n) && lookup(*evaluated, n) is Some
                            ==> lookup(*scope, n) is Some && ty_eq(lookup(*scope, n)->0, lookup(*evaluated, n)->0) by {
                        assert(lookup(*scope, n) == if n == ni { Some(cg) } else { lookup(before, n) });
                    }
                    assert forall|n: Seq<char>| #![trigger lookup(*scope, n)]
                        !(name_set(names@.take(i + 1)).contains(n) && lookup(*evaluated, n) is Some)
                            ==> lookup(*scope, n) == lookup(s0, n) by {
                        assert(lookup(*scope, n) == if n == ni { Some(cg) } else { lookup(before, n) });
                    }
                }
            },
            None => {},
        }
        i = i + 1;
    }
    assert(names@.take(names@.len() as int) =~= names@);
}

} // verus!
