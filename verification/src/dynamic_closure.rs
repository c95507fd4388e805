//! Dynamically constructed closures: a function literal bound to a name
//! whose formals or body a later `formals(x) <- ...` or `body(x) <- ...`
//! in the same lexical statement list replaces. The checker marks such a
//! placeholder literal's span and drops the findings that exist only
//! because the placeholder was analyzed as if it were the final closure.
//!
//! A scan reads one lexical statement list: its statements and, inside
//! them, nested statement lists of control flow and blocks, every call
//! argument, operand and condition, but not the bodies (or defaults) of
//! nested function literals, which are scopes of their own. Which other
//! parts a walk enters is given by a `WalkReach`.
use vstd::prelude::*;
use crate::ast::{Arg, BinOpKind, Expr, IndexKind, Param, Span, Stmt};
use crate::subscript::{bare_name, bare_spec};
use crate::text::str_eq;

verus! {

/// Which replacement functions target a placeholder name, and so how far
/// its opacity reaches.
#[derive(Clone, Copy, PartialEq, Eq, Debug, Structural)]
pub enum PlaceholderKind {
    /// Only `formals(x) <- v` ran: the body and the closures inside it
    /// survive, so findings inside nested function literals stay.
    FormalsOnly,
    /// `body(x) <- v` ran: the walked body is discarded wholesale.
    BodyReplaced,
}

/// The parts of a tree a walk enters besides statements, operands,
/// arguments and conditions.
#[derive(Clone, Copy, PartialEq, Eq, Debug, Structural)]
pub struct WalkReach {
    /// The targets of assignments.
    pub assign_targets: bool,
    /// The defaults and bodies of function literals and definitions.
    pub fn_bodies: bool,
    /// The arguments of `$` subscripts.
    pub dollar_args: bool,
}

/// What a walk collects: the replacement assignments it meets, as
/// (accessor without its namespace, target name); the function literals
/// bound by plain assignments, as (name, literal span); and the spans of
/// every function literal and definition it meets.
pub type WalkFacts = (Set<(Seq<char>, Seq<char>)>, Set<(Seq<char>, Span)>, Set<Span>);

pub open spec fn no_facts() -> WalkFacts {
    (Set::empty(), Set::empty(), Set::empty())
}

pub open spec fn facts_union(a: WalkFacts, b: WalkFacts) -> WalkFacts {
    (a.0.union(b.0), a.1.union(b.1), a.2.union(b.2))
}

/// The replacement an assignment target spells: `accessor(x)`, with the
/// accessor an identifier and `x` an unnamed identifier argument.
pub open spec fn replacement_of(target: Expr) -> Set<(Seq<char>, Seq<char>)> {
    match target {
        Expr::Call { func, args, .. } => match *func {
            Expr::Ident { name: accessor, .. } => if args@.len() > 0 && args@[0].name is None {
                match args@[0].value {
                    Expr::Ident { name, .. } => set![(bare_spec(accessor@), name@)],
                    _ => Set::empty(),
                }
            } else {
                Set::empty()
            },
            _ => Set::empty(),
        },
        _ => Set::empty(),
    }
}

/// The function literal a plain assignment `x <- function(...)` binds.
pub open spec fn binding_of(target: Expr, value: Expr) -> Set<(Seq<char>, Span)> {
    match (target, value) {
        (Expr::Ident { name, .. }, Expr::Function { span, .. }) => set![(name@, span)],
        _ => Set::empty(),
    }
}

/// What an assignment statement contributes itself.
pub open spec fn assign_facts(target: Expr, value: Expr) -> WalkFacts {
    (replacement_of(target), binding_of(target, value), Set::empty())
}

/// What a walk collects in a statement list.
pub open spec fn facts_stmts(ss: Seq<Stmt>, w: WalkReach) -> WalkFacts
    decreases ss,
{
    if ss.len() == 0 {
        no_facts()
    } else {
        facts_union(facts_stmts(ss.subrange(0, ss.len() - 1), w), facts_stmt(ss[ss.len() - 1], w))
    }
}

/// What a walk collects in the defaults of a list of formals.
pub open spec fn facts_params(ps: Seq<Param>, w: WalkReach) -> WalkFacts
    decreases ps,
{
    if ps.len() == 0 {
        no_facts()
    } else {
        facts_union(
            facts_params(ps.subrange(0, ps.len() - 1), w),
            match ps[ps.len() - 1].default {
                Some(d) => facts_expr(d, w),
                None => no_facts(),
            },
        )
    }
}

/// What a walk collects in call or subscript arguments.
pub open spec fn facts_args(args: Seq<Arg>, w: WalkReach) -> WalkFacts
    decreases args,
{
    if args.len() == 0 {
        no_facts()
    } else {
        facts_union(facts_args(args.subrange(0, args.len() - 1), w), facts_expr(args[args.len() - 1].value, w))
    }
}

/// What a function literal or definition contributes itself, with what
/// a walk collects in its defaults and body when it enters them.
pub open spec fn function_facts(span: Span, inside: WalkFacts, w: WalkReach) -> WalkFacts {
    facts_union((Set::empty(), Set::empty(), set![span]), if w.fn_bodies { inside } else { no_facts() })
}

/// What a walk collects in one statement.
pub open spec fn facts_stmt(s: Stmt, w: WalkReach) -> WalkFacts
    decreases s,
{
    match s {
        Stmt::Assign { target, value, .. } => facts_union(
            assign_facts(target, value),
            facts_union(
                if w.assign_targets {
                    facts_expr(target, w)
                } else {
                    no_facts()
                },
                facts_expr(value, w),
            ),
        ),
        Stmt::Expr(e) => facts_expr(e, w),
        Stmt::If { cond, then, else_, .. } => facts_union(
            facts_union(facts_expr(cond, w), facts_stmts(then@, w)),
            match else_ {
                Some(b) => facts_stmts(b@, w),
                None => no_facts(),
            },
        ),
        Stmt::For { iter, body, .. } => facts_union(facts_expr(iter, w), facts_stmts(body@, w)),
        Stmt::While { cond, body, .. } => facts_union(facts_expr(cond, w), facts_stmts(body@, w)),
        Stmt::FunctionDef { params, body, span, .. } => function_facts(
            span,
            facts_union(facts_params(params@, w), facts_stmts(body@, w)),
            w,
        ),
        Stmt::Return { value, .. } => match value {
            Some(v) => facts_expr(v, w),
            None => no_facts(),
        },
    }
}

/// What a walk collects in one expression.
pub open spec fn facts_expr(e: Expr, w: WalkReach) -> WalkFacts
    decreases e,
{
    match e {
        Expr::Call { func, args, .. } => facts_union(facts_expr(*func, w), facts_args(args@, w)),
        Expr::BinOp { op, lhs, rhs, .. } => facts_union(
            if (op == BinOpKind::Assign || op == BinOpKind::SuperAssign) && !w.assign_targets {
                no_facts()
            } else {
                facts_expr(*lhs, w)
            },
            facts_expr(*rhs, w),
        ),
        Expr::UnaryOp { expr, .. } => facts_expr(*expr, w),
        Expr::Index { base, kind, args, .. } => facts_union(
            facts_expr(*base, w),
            if kind == IndexKind::Dollar && !w.dollar_args {
                no_facts()
            } else {
                facts_args(args@, w)
            },
        ),
        Expr::Function { params, body, span } => function_facts(
            span,
            facts_union(facts_params(params@, w), facts_stmts(body@, w)),
            w,
        ),
        Expr::Block { body, .. } => facts_stmts(body@, w),
        Expr::If { cond, then, else_, .. } => facts_union(
            facts_union(facts_expr(*cond, w), facts_expr(*then, w)),
            match else_ {
                Some(b) => facts_expr(*b, w),
                None => no_facts(),
            },
        ),
        _ => no_facts(),
    }
}

/// What an exec walk has collected so far.
#[derive(Debug)]
pub struct WalkAcc {
    pub replacements: Vec<(String, String)>,
    pub bindings: Vec<(String, Span)>,
    pub functions: Vec<Span>,
}

/// The facts a walk accumulator holds.
pub open spec fn acc_view(a: WalkAcc) -> WalkFacts {
    (
        Set::new(
            |p: (Seq<char>, Seq<char>)|
                exists|i: int|
                    0 <= i < a.replacements@.len() && (#[trigger] a.replacements@[i]).0@ == p.0
                        && a.replacements@[i].1@ == p.1,
        ),
        Set::new(
            |p: (Seq<char>, Span)|
                exists|i: int|
                    0 <= i < a.bindings@.len() && (#[trigger] a.bindings@[i]).0@ == p.0 && a.bindings@[i].1 == p.1,
        ),
        Set::new(|p: Span| exists|i: int| 0 <= i < a.functions@.len() && #[trigger] a.functions@[i] == p),
    )
}

/// Facts are equal when their parts are.
proof fn lemma_facts_ext(a: WalkFacts, b: WalkFacts)
    requires
        a.0 =~= b.0,
        a.1 =~= b.1,
        a.2 =~= b.2,
    ensures
        a == b,
{
}

fn push_replacement(acc: &mut WalkAcc, accessor: String, name: String)
    ensures
        acc_view(*final(acc)) == facts_union(acc_view(*old(acc)), (set![(accessor@, name@)], Set::empty(), Set::empty())),
{
    let ghost before = *acc;
    acc.replacements.push((accessor, name));
    proof {
        let v = acc_view(*acc);
        let u = facts_union(acc_view(before), (set![(accessor@, name@)], Set::empty(), Set::empty()));
        assert forall|p: (Seq<char>, Seq<char>)| v.0.contains(p) == u.0.contains(p) by {
            if v.0.contains(p) {
                let i = choose|i: int|
                    0 <= i < acc.replacements@.len() && (#[trigger] acc.replacements@[i]).0@ == p.0
                        && acc.replacements@[i].1@ == p.1;
                if i < before.replacements@.len() {
                    assert(before.replacements@[i] == acc.replacements@[i]);
                }
            }
            if acc_view(before).0.contains(p) {
                let i = choose|i: int|
                    0 <= i < before.replacements@.len() && (#[trigger] before.replacements@[i]).0@ == p.0
                        && before.replacements@[i].1@ == p.1;
                assert(acc.replacements@[i] == before.replacements@[i]);
            }
            if p == (accessor@, name@) {
                assert(acc.replacements@[before.replacements@.len() as int] == (accessor, name));
            }
        }
        assert(v.1 =~= u.1) by {
            assert forall|p: (Seq<char>, Span)| v.1.contains(p) == u.1.contains(p) by {
                if v.1.contains(p) {
                    let i = choose|i: int|
                        0 <= i < acc.bindings@.len() && (#[trigger] acc.bindings@[i]).0@ == p.0 && acc.bindings@[i].1
                            == p.1;
                    assert(acc.bindings@[i] == before.bindings@[i]);
                }
            }
        }
        assert(v.2 =~= u.2);
        lemma_facts_ext(v, u);
    }
}

fn push_binding(acc: &mut WalkAcc, name: String, span: Span)
    ensures
        acc_view(*final(acc)) == facts_union(acc_view(*old(acc)), (Set::empty(), set![(name@, span)], Set::empty())),
{
    let ghost before = *acc;
    acc.bindings.push((name, span));
    proof {
        let v = acc_view(*acc);
        let u = facts_union(acc_view(before), (Set::empty(), set![(name@, span)], Set::empty()));
        assert forall|p: (Seq<char>, Span)| v.1.contains(p) == u.1.contains(p) by {
            if v.1.contains(p) {
                let i = choose|i: int|
                    0 <= i < acc.bindings@.len() && (#[trigger] acc.bindings@[i]).0@ == p.0 && acc.bindings@[i].1 == p.1;
                if i < before.bindings@.len() {
                    assert(before.bindings@[i] == acc.bindings@[i]);
                }
            }
            if acc_view(before).1.contains(p) {
                let i = choose|i: int|
                    0 <= i < before.bindings@.len() && (#[trigger] before.bindings@[i]).0@ == p.0 && before.bindings@[i].1
                        == p.1;
                assert(acc.bindings@[i] == before.bindings@[i]);
            }
            if p == (name@, span) {
                assert(acc.bindings@[before.bindings@.len() as int] == (name, span));
            }
        }
        assert(v.0 =~= u.0) by {
            assert forall|p: (Seq<char>, Seq<char>)| v.0.contains(p) == u.0.contains(p) by {
                if v.0.contains(p) {
                    let i = choose|i: int|
                        0 <= i < acc.replacements@.len() && (#[trigger] acc.replacements@[i]).0@ == p.0
                            && acc.replacements@[i].1@ == p.1;
                    assert(acc.replacements@[i] == before.replacements@[i]);
                }
            }
        }
        assert(v.2 =~= u.2);
        lemma_facts_ext(v, u);
    }
}

fn push_function(acc: &mut WalkAcc, span: Span)
    ensures
        acc_view(*final(acc)) == facts_union(acc_view(*old(acc)), (Set::empty(), Set::empty(), set![span])),
{
    let ghost before = *acc;
    acc.functions.push(span);
    proof {
        let v = acc_view(*acc);
        let u = facts_union(acc_view(before), (Set::empty(), Set::empty(), set![span]));
        assert forall|p: Span| v.2.contains(p) == u.2.contains(p) by {
            if v.2.contains(p) {
                let i = choose|i: int| 0 <= i < acc.functions@.len() && #[trigger] acc.functions@[i] == p;
                if i < before.functions@.len() {
                    assert(before.functions@[i] == acc.functions@[i]);
                }
            }
            if acc_view(before).2.contains(p) {
                let i = choose|i: int| 0 <= i < before.functions@.len() && #[trigger] before.functions@[i] == p;
                assert(acc.functions@[i] == before.functions@[i]);
            }
            if p == span {
                assert(acc.functions@[before.functions@.len() as int] == span);
            }
        }
        assert(v.0 =~= u.0) by {
            assert forall|p: (Seq<char>, Seq<char>)| v.0.contains(p) == u.0.contains(p) by {
                if v.0.contains(p) {
                    let i = choose|i: int|
                        0 <= i < acc.replacements@.len() && (#[trigger] acc.replacements@[i]).0@ == p.0
                            && acc.replacements@[i].1@ == p.1;
                    assert(acc.replacements@[i] == before.replacements@[i]);
                }
            }
        }
        assert(v.1 =~= u.1) by {
            assert forall|p: (Seq<char>, Span)| v.1.contains(p) == u.1.contains(p) by {
                if v.1.contains(p) {
                    let i = choose|i: int|
                        0 <= i < acc.bindings@.len() && (#[trigger] acc.bindings@[i]).0@ == p.0 && acc.bindings@[i].1
                            == p.1;
                    assert(acc.bindings@[i] == before.bindings@[i]);
                }
            }
        }
        lemma_facts_ext(v, u);
    }
}

/// Joining facts in two steps is joining them at once.
proof fn lemma_facts_assoc(a: WalkFacts, b: WalkFacts, c: WalkFacts)
    ensures
        facts_union(facts_union(a, b), c) == facts_union(a, facts_union(b, c)),
{
    lemma_facts_ext(facts_union(facts_union(a, b), c), facts_union(a, facts_union(b, c)));
}

/// Joining no facts changes nothing.
proof fn lemma_facts_none(a: WalkFacts)
    ensures
        facts_union(a, no_facts()) == a,
{
    lemma_facts_ext(facts_union(a, no_facts()), a);
}

fn collect_stmts(ss: &Vec<Stmt>, w: WalkReach, acc: &mut WalkAcc)
    ensures
        acc_view(*final(acc)) == facts_union(acc_view(*old(acc)), facts_stmts(ss@, w)),
    decreases ss, 1int,
{
    let ghost start = acc_view(*acc);
    let mut i: usize = 0;
    assert(ss@.take(0) =~= Seq::<Stmt>::empty());
    proof {
        lemma_facts_none(start);
    }
    while i < ss.len()
        invariant
            i <= ss@.len(),
            acc_view(*acc) == facts_union(start, facts_stmts(ss@.take(i as int), w)),
        decreases ss.len() - i,
    {
        proof {
            assert(decreases_to!(ss => ss@));
            assert(decreases_to!(ss@ => ss@[i as int]));
        }
        collect_stmt(&ss[i], w, acc);
        proof {
            let t = ss@.take(i + 1);
            assert(t.subrange(0, t.len() - 1) =~= ss@.take(i as int));
            assert(t[t.len() - 1] == ss@[i as int]);
            lemma_facts_assoc(start, facts_stmts(ss@.take(i as int), w), facts_stmt(ss@[i as int], w));
        }
        i = i + 1;
    }
    assert(ss@.take(ss@.len() as int) =~= ss@);
}

fn collect_args(args: &Vec<Arg>, w: WalkReach, acc: &mut WalkAcc)
    ensures
        acc_view(*final(acc)) == facts_union(acc_view(*old(acc)), facts_args(args@, w)),
    decreases args, 1int,
{
    let ghost start = acc_view(*acc);
    let mut i: usize = 0;
    assert(args@.take(0) =~= Seq::<Arg>::empty());
    proof {
        lemma_facts_none(start);
    }
    while i < args.len()
        invariant
            i <= args@.len(),
            acc_view(*acc) == facts_union(start, facts_args(args@.take(i as int), w)),
        decreases args.len() - i,
    {
        proof {
            assert(decreases_to!(args => args@));
            assert(decreases_to!(args@ => args@[i as int]));
            assert(decreases_to!(args@[i as int] => args@[i as int].value));
        }
        collect_expr(&args[i].value, w, acc);
        proof {
            let t = args@.take(i + 1);
            assert(t.subrange(0, t.len() - 1) =~= args@.take(i as int));
            assert(t[t.len() - 1] == args@[i as int]);
            lemma_facts_assoc(start, facts_args(args@.take(i as int), w), facts_expr(args@[i as int].value, w));
        }
        i = i + 1;
    }
    assert(args@.take(args@.len() as int) =~= args@);
}

fn collect_params(ps: &Vec<Param>, w: WalkReach, acc: &mut WalkAcc)
    ensures
        acc_view(*final(acc)) == facts_union(acc_view(*old(acc)), facts_params(ps@, w)),
    decreases ps, 1int,
{
    let ghost start = acc_view(*acc);
    let mut i: usize = 0;
    assert(ps@.take(0) =~= Seq::<Param>::empty());
    proof {
        lemma_facts_none(start);
    }
    while i < ps.len()
        invariant
            i <= ps@.len(),
            acc_view(*acc) == facts_union(start, facts_params(ps@.take(i as int), w)),
        decreases ps.len() - i,
    {
        proof {
            assert(decreases_to!(ps => ps@));
            assert(decreases_to!(ps@ => ps@[i as int]));
            assert(decreases_to!(ps@[i as int] => ps@[i as int].default));
        }
        let ghost mid = acc_view(*acc);
        match &ps[i].default {
            Some(d) => collect_expr(d, w, acc),
            None => {
                proof {
                    lemma_facts_none(mid);
                }
            },
        }
        proof {
            let t = ps@.take(i + 1);
            assert(t.subrange(0, t.len() - 1) =~= ps@.take(i as int));
            assert(t[t.len() - 1] == ps@[i as int]);
            lemma_facts_assoc(
                start,
                facts_params(ps@.take(i as int), w),
                match ps@[i as int].default {
                    Some(d) => facts_expr(d, w),
                    None => no_facts(),
                },
            );
        }
        i = i + 1;
    }
    assert(ps@.take(ps@.len() as int) =~= ps@);
}

fn collect_stmt(s: &Stmt, w: WalkReach, acc: &mut WalkAcc)
    ensures
        acc_view(*final(acc)) == facts_union(acc_view(*old(acc)), facts_stmt(*s, w)),
    decreases s, 0int,
{
    let ghost before = acc_view(*acc);
    match s {
        Stmt::Assign { target, value, .. } => {
            record_assignment(target, value, acc);
            if w.assign_targets {
                collect_expr(target, w, acc);
            }
            collect_expr(value, w, acc);
        },
        Stmt::Expr(e) => collect_expr(e, w, acc),
        Stmt::If { cond, then, else_, .. } => {
            collect_expr(cond, w, acc);
            collect_stmts(then, w, acc);
            if let Some(b) = else_ {
                collect_stmts(b, w, acc);
            }
        },
        Stmt::For { iter, body, .. } => {
            collect_expr(iter, w, acc);
            collect_stmts(body, w, acc);
        },
        Stmt::While { cond, body, .. } => {
            collect_expr(cond, w, acc);
            collect_stmts(body, w, acc);
        },
        Stmt::FunctionDef { params, body, span, .. } => {
            push_function(acc, *span);
            if w.fn_bodies {
                collect_params(params, w, acc);
                collect_stmts(body, w, acc);
            }
        },
        Stmt::Return { value, .. } => {
            if let Some(v) = value {
                collect_expr(v, w, acc);
            }
        },
    }
    proof {
        lemma_facts_ext(acc_view(*acc), facts_union(before, facts_stmt(*s, w)));
    }
}

fn collect_expr(e: &Expr, w: WalkReach, acc: &mut WalkAcc)
    ensures
        acc_view(*final(acc)) == facts_union(acc_view(*old(acc)), facts_expr(*e, w)),
    decreases e, 0int,
{
    let ghost before = acc_view(*acc);
    match e {
        Expr::Call { func, args, .. } => {
            collect_expr(func, w, acc);
            collect_args(args, w, acc);
        },
        Expr::BinOp { op, lhs, rhs, .. } => {
            if !((*op == BinOpKind::Assign || *op == BinOpKind::SuperAssign) && !w.assign_targets) {
                collect_expr(lhs, w, acc);
            }
            collect_expr(rhs, w, acc);
        },
        Expr::UnaryOp { expr, .. } => collect_expr(expr, w, acc),
        Expr::Index { base, kind, args, .. } => {
            collect_expr(base, w, acc);
            if !(*kind == IndexKind::Dollar && !w.dollar_args) {
                collect_args(args, w, acc);
            }
        },
        Expr::Function { params, body, span } => {
            push_function(acc, *span);
            if w.fn_bodies {
                collect_params(params, w, acc);
                collect_stmts(body, w, acc);
            }
        },
        Expr::Block { body, .. } => collect_stmts(body, w, acc),
        Expr::If { cond, then, else_, .. } => {
            collect_expr(cond, w, acc);
            collect_expr(then, w, acc);
            if let Some(b) = else_ {
                collect_expr(b, w, acc);
            }
        },
        _ => {},
    }
    proof {
        lemma_facts_ext(acc_view(*acc), facts_union(before, facts_expr(*e, w)));
    }
}

/// Record what an assignment statement contributes itself.
fn record_assignment(target: &Expr, value: &Expr, acc: &mut WalkAcc)
    ensures
        acc_view(*final(acc)) == facts_union(acc_view(*old(acc)), assign_facts(*target, *value)),
{
    let ghost before = acc_view(*acc);
    if let Expr::Call { func, args, .. } = target {
        if let Expr::Ident { name: accessor, .. } = &**func {
            if args.len() > 0 && args[0].name.is_none() {
                if let Expr::Ident { name, .. } = &args[0].value {
                    push_replacement(acc, bare_name(accessor.as_str()), name.clone());
                }
            }
        }
    }
    if let Expr::Ident { name, .. } = target {
        if let Expr::Function { span, .. } = value {
            push_binding(acc, name.clone(), *span);
        }
    }
    proof {
        lemma_facts_ext(acc_view(*acc), facts_union(before, assign_facts(*target, *value)));
    }
}

/// How a scan of one lexical scope walks: not into assignment targets,
/// nested function bodies or `$` arguments.
pub open spec fn scope_reach() -> WalkReach {
    WalkReach { assign_targets: false, fn_bodies: false, dollar_args: false }
}

/// How a walk that looks for every nested function literal proceeds:
/// into everything.
pub open spec fn full_reach() -> WalkReach {
    WalkReach { assign_targets: true, fn_bodies: true, dollar_args: true }
}

/// The strongest replacement that targets `name`: a `body<-` replaces the
/// body whatever else ran, a `formals<-` alone only the formals.
pub open spec fn target_kind(reps: Set<(Seq<char>, Seq<char>)>, name: Seq<char>) -> Option<PlaceholderKind> {
    if reps.contains(("body"@, name)) {
        Some(PlaceholderKind::BodyReplaced)
    } else if reps.contains(("formals"@, name)) {
        Some(PlaceholderKind::FormalsOnly)
    } else {
        None
    }
}

/// Whether a table maps `name` to `kind`.
pub open spec fn has_entry(v: Seq<(String, PlaceholderKind)>, name: Seq<char>, kind: PlaceholderKind) -> bool {
    exists|i: int| 0 <= i < v.len() && (#[trigger] v[i]).0@ == name && v[i].1 == kind
}

/// Whether a table names every key once.
pub open spec fn keys_unique(v: Seq<(String, PlaceholderKind)>) -> bool {
    forall|i: int, j: int| 0 <= i < j < v.len() ==> (#[trigger] v[i]).0@ != (#[trigger] v[j]).0@
}

/// The table a replacement scan builds: each targeted name once, with its
/// strongest replacement.
pub open spec fn targets_spec(reps: Set<(Seq<char>, Seq<char>)>, v: Seq<(String, PlaceholderKind)>) -> bool {
    &&& keys_unique(v)
    &&& forall|name: Seq<char>, kind: PlaceholderKind|
        #![trigger has_entry(v, name, kind)]
        has_entry(v, name, kind) <==> target_kind(reps, name) == Some(kind)
}

/// The replacements among the first `j` collected ones.
pub open spec fn reps_prefix(v: Seq<(String, String)>, j: int) -> Set<(Seq<char>, Seq<char>)> {
    Set::new(|p: (Seq<char>, Seq<char>)| exists|i: int| 0 <= i < j && (#[trigger] v[i]).0@ == p.0 && v[i].1@ == p.1)
}

/// Where `name` stands in a table, if it does.
fn entry_index(v: &Vec<(String, PlaceholderKind)>, name: &str) -> (r: Option<usize>)
    ensures
        match r {
            Some(i) => i < v@.len() && v@[i as int].0@ == name@,
            None => forall|i: int| 0 <= i < v@.len() ==> (#[trigger] v@[i]).0@ != name@,
        },
{
    let mut i: usize = 0;
    while i < v.len()
        invariant
            i <= v@.len(),
            forall|k: int| 0 <= k < i ==> (#[trigger] v@[k]).0@ != name@,
        decreases v.len() - i,
    {
        if str_eq(v[i].0.as_str(), name) {
            return Some(i);
        }
        i = i + 1;
    }
    None
}

/// The names bound by `formals(x) <- v` or `body(x) <- v` in one lexical
/// statement list, each with the strongest replacement that targets it.
pub fn replacement_targets(stmts: &Vec<Stmt>) -> (r: Vec<(String, PlaceholderKind)>)
    ensures
        targets_spec(facts_stmts(stmts@, scope_reach()).0, r@),
{
    let mut acc = WalkAcc { replacements: Vec::new(), bindings: Vec::new(), functions: Vec::new() };
    let reach = WalkReach { assign_targets: false, fn_bodies: false, dollar_args: false };
    proof {
        lemma_facts_ext(acc_view(acc), no_facts());
        lemma_facts_ext(facts_union(no_facts(), facts_stmts(stmts@, reach)), facts_stmts(stmts@, reach));
    }
    collect_stmts(stmts, reach, &mut acc);
    let ghost reps = acc.replacements@;
    assert(facts_stmts(stmts@, scope_reach()).0 =~= reps_prefix(reps, reps.len() as int));
    let mut targets: Vec<(String, PlaceholderKind)> = Vec::new();
    let mut j: usize = 0;
    proof {
        reveal_strlit("body");
        reveal_strlit("formals");
    }
    while j < acc.replacements.len()
        invariant
            j <= reps.len(),
            acc.replacements@ == reps,
            targets_spec(reps_prefix(reps, j as int), targets@),
        decreases acc.replacements.len() - j,
    {
        let accessor = acc.replacements[j].0.as_str();
        let name = acc.replacements[j].1.as_str();
        let ghost before = targets@;
        let is_body = str_eq(accessor, "body");
        let is_formals = str_eq(accessor, "formals");
        let ghost mut wit: int = -1;
        if is_body || is_formals {
            match entry_index(&targets, name) {
                Some(i) => {
                    if is_body {
                        targets.set(i, (name.to_string(), PlaceholderKind::BodyReplaced));
                    }
                    proof {
                        wit = i as int;
                    }
                },
                None => {
                    let kind = if is_body {
                        PlaceholderKind::BodyReplaced
                    } else {
                        PlaceholderKind::FormalsOnly
                    };
                    targets.push((name.to_string(), kind));
                    proof {
                        wit = before.len() as int;
                    }
                },
            }
        }
        proof {
            let prev = reps_prefix(reps, j as int);
            let next = reps_prefix(reps, j + 1);
            let p = (reps[j as int].0@, reps[j as int].1@);
            assert(next =~= prev.insert(p)) by {
                assert forall|q: (Seq<char>, Seq<char>)| next.contains(q) == prev.insert(p).contains(q) by {
                    if next.contains(q) {
                        let i = choose|i: int| 0 <= i < j + 1 && (#[trigger] reps[i]).0@ == q.0 && reps[i].1@ == q.1;
                        if i < j {
                            assert(prev.contains(q));
                        }
                    }
                    if prev.contains(q) {
                        let i = choose|i: int| 0 <= i < j && (#[trigger] reps[i]).0@ == q.0 && reps[i].1@ == q.1;
                        assert(next.contains(q));
                    }
                    if q == p {
                        assert(reps[j as int].0@ == q.0 && reps[j as int].1@ == q.1);
                        assert(next.contains(q));
                    }
                }
            }
            assert(keys_unique(targets@)) by {
                assert forall|a: int, b: int| 0 <= a < b < targets@.len() implies (#[trigger] targets@[a]).0@ != (#[trigger] targets@[b]).0@ by {
                    if b >= before.len() {
                        assert(targets@[a] == before[a]);
                    } else {
                        assert(before[a].0@ != before[b].0@);
                    }
                }
            }
            assert forall|n: Seq<char>, k: PlaceholderKind| has_entry(targets@, n, k) <==> target_kind(next, n) == Some(k) by {
                if n == name@ {
                    assert(has_entry(before, n, PlaceholderKind::BodyReplaced) <==> target_kind(prev, n) == Some(PlaceholderKind::BodyReplaced));
                    assert(has_entry(before, n, PlaceholderKind::FormalsOnly) <==> target_kind(prev, n) == Some(PlaceholderKind::FormalsOnly));
                    assert(next.contains(p));
                    if is_body || is_formals {
                        assert(0 <= wit < targets@.len() && targets@[wit].0@ == n);
                        assert(has_entry(targets@, n, targets@[wit].1));
                        if wit < before.len() {
                            assert(has_entry(before, n, before[wit].1));
                        }
                        if has_entry(targets@, n, k) {
                            let i = choose|i: int| 0 <= i < targets@.len() && (#[trigger] targets@[i]).0@ == n && targets@[i].1 == k;
                            assert(i == wit);
                        }
                    } else {
                        assert(target_kind(next, n) == target_kind(prev, n));
                        if has_entry(targets@, n, k) {
                            let i = choose|i: int| 0 <= i < targets@.len() && (#[trigger] targets@[i]).0@ == n && targets@[i].1 == k;
                            assert(has_entry(before, n, k));
                        }
                        if has_entry(before, n, k) {
                            let i = choose|i: int| 0 <= i < before.len() && (#[trigger] before[i]).0@ == n && before[i].1 == k;
                            assert(has_entry(targets@, n, k));
                        }
                    }
                } else {
                    if has_entry(targets@, n, k) {
                        let i = choose|i: int| 0 <= i < targets@.len() && (#[trigger] targets@[i]).0@ == n && targets@[i].1 == k;
                        assert(targets@[i] == before[i]);
                        assert(has_entry(before, n, k));
                    }
                    if has_entry(before, n, k) {
                        let i = choose|i: int| 0 <= i < before.len() && (#[trigger] before[i]).0@ == n && before[i].1 == k;
                        assert(targets@[i] == before[i]);
                        assert(has_entry(targets@, n, k));
                    }
                }
            }
        }
        j = j + 1;
    }
    targets
}

/// The (span, kind) pairs a list holds.
pub open spec fn pair_set(v: Seq<(Span, PlaceholderKind)>) -> Set<(Span, PlaceholderKind)> {
    Set::new(|p: (Span, PlaceholderKind)| exists|i: int| 0 <= i < v.len() && #[trigger] v[i] == p)
}

/// The placeholder literals of a scope under a table of targets: each
/// function literal bound to a targeted name, with the name's kind.
pub open spec fn placeholders_with(
    binds: Set<(Seq<char>, Span)>,
    targets: Seq<(String, PlaceholderKind)>,
) -> Set<(Span, PlaceholderKind)> {
    Set::new(
        |p: (Span, PlaceholderKind)|
            exists|name: Seq<char>| #[trigger] binds.contains((name, p.0)) && has_entry(targets, name, p.1),
    )
}

/// The spans that follow the pairs of a list one longer.
proof fn lemma_pair_set_push(v: Seq<(Span, PlaceholderKind)>, x: (Span, PlaceholderKind))
    ensures
        pair_set(v.push(x)) == pair_set(v).insert(x),
{
    assert forall|p: (Span, PlaceholderKind)| pair_set(v.push(x)).contains(p) == pair_set(v).insert(x).contains(p) by {
        if pair_set(v.push(x)).contains(p) {
            let i = choose|i: int| 0 <= i < v.push(x).len() && #[trigger] v.push(x)[i] == p;
            if i < v.len() {
                assert(v[i] == p);
            }
        }
        if pair_set(v).contains(p) {
            let i = choose|i: int| 0 <= i < v.len() && #[trigger] v[i] == p;
            assert(v.push(x)[i] == p);
        }
        if p == x {
            assert(v.push(x)[v.len() as int] == p);
        }
    }
    assert(pair_set(v.push(x)) =~= pair_set(v).insert(x));
}

/// The bindings among the first `j` collected ones.
pub open spec fn binds_prefix(v: Seq<(String, Span)>, j: int) -> Set<(Seq<char>, Span)> {
    Set::new(|p: (Seq<char>, Span)| exists|i: int| 0 <= i < j && (#[trigger] v[i]).0@ == p.0 && v[i].1 == p.1)
}

/// Record the placeholder literals of one lexical statement list: an
/// `x <- function(...)` whose name `targets` lists, with its kind.
pub fn scope_placeholder_spans(
    stmts: &Vec<Stmt>,
    targets: &Vec<(String, PlaceholderKind)>,
    out: &mut Vec<(Span, PlaceholderKind)>,
)
    requires
        keys_unique(targets@),
    ensures
        pair_set(final(out)@) == pair_set(old(out)@).union(
            placeholders_with(facts_stmts(stmts@, scope_reach()).1, targets@),
        ),
{
    let ghost start = out@;
    if targets.len() == 0 {
        assert(placeholders_with(facts_stmts(stmts@, scope_reach()).1, targets@) =~= Set::empty());
        assert(pair_set(out@) =~= pair_set(start).union(Set::empty()));
        return;
    }
    let mut acc = WalkAcc { replacements: Vec::new(), bindings: Vec::new(), functions: Vec::new() };
    let reach = WalkReach { assign_targets: false, fn_bodies: false, dollar_args: false };
    proof {
        lemma_facts_ext(acc_view(acc), no_facts());
        lemma_facts_ext(facts_union(no_facts(), facts_stmts(stmts@, reach)), facts_stmts(stmts@, reach));
    }
    collect_stmts(stmts, reach, &mut acc);
    let ghost binds = acc.bindings@;
    assert(facts_stmts(stmts@, scope_reach()).1 =~= binds_prefix(binds, binds.len() as int));
    let mut j: usize = 0;
    assert(placeholders_with(binds_prefix(binds, 0), targets@) =~= Set::empty()) by {
        assert forall|p: (Span, PlaceholderKind)| !placeholders_with(binds_prefix(binds, 0), targets@).contains(p) by {
            if placeholders_with(binds_prefix(binds, 0), targets@).contains(p) {
                let name = choose|name: Seq<char>| #[trigger] binds_prefix(binds, 0).contains((name, p.0)) && has_entry(targets@, name, p.1);
                let i = choose|i: int| 0 <= i < 0 && (#[trigger] binds[i]).0@ == name && binds[i].1 == p.0;
            }
        }
    }
    assert(pair_set(out@) =~= pair_set(start).union(placeholders_with(binds_prefix(binds, 0), targets@)));
    while j < acc.bindings.len()
        invariant
            j <= binds.len(),
            acc.bindings@ == binds,
            keys_unique(targets@),
            pair_set(out@) == pair_set(start).union(placeholders_with(binds_prefix(binds, j as int), targets@)),
        decreases acc.bindings.len() - j,
    {
        let name = acc.bindings[j].0.as_str();
        let span = acc.bindings[j].1;
        let ghost before = out@;
        let ghost prev = placeholders_with(binds_prefix(binds, j as int), targets@);
        let ghost next = placeholders_with(binds_prefix(binds, j + 1), targets@);
        let ghost bp = binds_prefix(binds, j as int);
        let ghost bn = binds_prefix(binds, j + 1);
        proof {
            assert(bn =~= bp.insert((name@, span))) by {
                assert forall|q: (Seq<char>, Span)| bn.contains(q) == bp.insert((name@, span)).contains(q) by {
                    if bn.contains(q) {
                        let i = choose|i: int| 0 <= i < j + 1 && (#[trigger] binds[i]).0@ == q.0 && binds[i].1 == q.1;
                        if i < j {
                            assert(bp.contains(q));
                        }
                    }
                    if bp.contains(q) {
                        let i = choose|i: int| 0 <= i < j && (#[trigger] binds[i]).0@ == q.0 && binds[i].1 == q.1;
                        assert(bn.contains(q));
                    }
                    if q == (name@, span) {
                        assert(binds[j as int].0@ == q.0 && binds[j as int].1 == q.1);
                        assert(bn.contains(q));
                    }
                }
            }
        }
        match entry_index(targets, name) {
            Some(i) => {
                let kind = targets[i].1;
                out.push((span, kind));
                proof {
                    lemma_pair_set_push(before, (span, kind));
                    assert(has_entry(targets@, name@, kind));
                    assert(next =~= prev.insert((span, kind))) by {
                        assert forall|p: (Span, PlaceholderKind)| next.contains(p) == prev.insert((span, kind)).contains(p) by {
                            if next.contains(p) {
                                let nm = choose|nm: Seq<char>| #[trigger] bn.contains((nm, p.0)) && has_entry(targets@, nm, p.1);
                                if !bp.contains((nm, p.0)) {
                                    assert(nm == name@ && p.0 == span);
                                    let a = choose|a: int| 0 <= a < targets@.len() && (#[trigger] targets@[a]).0@ == nm && targets@[a].1 == p.1;
                                    if a != i as int {
                                        if a < i {
                                            assert(targets@[a].0@ != targets@[i as int].0@);
                                        } else {
                                            assert(targets@[i as int].0@ != targets@[a].0@);
                                        }
                                    }
                                } else {
                                    assert(prev.contains(p));
                                }
                            }
                            if prev.contains(p) {
                                let nm = choose|nm: Seq<char>| #[trigger] bp.contains((nm, p.0)) && has_entry(targets@, nm, p.1);
                                assert(bn.contains((nm, p.0)));
                            }
                            if p == (span, kind) {
                                assert(bn.contains((name@, span)));
                            }
                        }
                    }
                }
            },
            None => {
                proof {
                    assert(next =~= prev) by {
                        assert forall|p: (Span, PlaceholderKind)| next.contains(p) == prev.contains(p) by {
                            if next.contains(p) {
                                let nm = choose|nm: Seq<char>| #[trigger] bn.contains((nm, p.0)) && has_entry(targets@, nm, p.1);
                                if !bp.contains((nm, p.0)) {
                                    let a = choose|a: int| 0 <= a < targets@.len() && (#[trigger] targets@[a]).0@ == nm && targets@[a].1 == p.1;
                                }
                            }
                            if prev.contains(p) {
                                let nm = choose|nm: Seq<char>| #[trigger] bp.contains((nm, p.0)) && has_entry(targets@, nm, p.1);
                                assert(bn.contains((nm, p.0)));
                            }
                        }
                    }
                }
            },
        }
        j = j + 1;
    }
}

/// The spans of every function literal and definition inside a body, at
/// any depth.
pub fn nested_function_literal_spans(body: &Vec<Stmt>) -> (r: Vec<Span>)
    ensures
        r@.to_set() == facts_stmts(body@, full_reach()).2,
{
    let mut acc = WalkAcc { replacements: Vec::new(), bindings: Vec::new(), functions: Vec::new() };
    let reach = WalkReach { assign_targets: true, fn_bodies: true, dollar_args: true };
    proof {
        lemma_facts_ext(acc_view(acc), no_facts());
        lemma_facts_ext(facts_union(no_facts(), facts_stmts(body@, reach)), facts_stmts(body@, reach));
    }
    collect_stmts(body, reach, &mut acc);
    proof {
        assert forall|p: Span| acc.functions@.to_set().contains(p) == acc_view(acc).2.contains(p) by {
            if acc.functions@.to_set().contains(p) {
                let i = choose|i: int| 0 <= i < acc.functions@.len() && acc.functions@[i] == p;
                assert(acc.functions@[i] == p);
            }
            if acc_view(acc).2.contains(p) {
                let i = choose|i: int| 0 <= i < acc.functions@.len() && #[trigger] acc.functions@[i] == p;
                assert(acc.functions@.contains(p));
            }
        }
        assert(acc.functions@.to_set() =~= acc_view(acc).2);
    }
    acc.functions
}

/// The placeholder literals of one lexical scope: each function literal
/// bound to a name the same scope replaces, with the strongest
/// replacement of that name.
pub open spec fn scope_placeholders(ss: Seq<Stmt>) -> Set<(Span, PlaceholderKind)> {
    let f = facts_stmts(ss, scope_reach());
    Set::new(
        |p: (Span, PlaceholderKind)|
            exists|name: Seq<char>| #[trigger] f.1.contains((name, p.0)) && target_kind(f.0, name) == Some(p.1),
    )
}

/// Every placeholder literal of a statement list: those of its own scope
/// and those of every function body nested in it, each body a scope of
/// its own.
pub open spec fn indexed_stmts(ss: Seq<Stmt>) -> Set<(Span, PlaceholderKind)>
    decreases ss, 1int,
{
    scope_placeholders(ss).union(nested_indexed_stmts(ss))
}

/// The placeholder literals of the function bodies nested in a statement
/// list (assignment targets included).
pub open spec fn nested_indexed_stmts(ss: Seq<Stmt>) -> Set<(Span, PlaceholderKind)>
    decreases ss, 0int,
{
    if ss.len() == 0 {
        Set::empty()
    } else {
        nested_indexed_stmts(ss.subrange(0, ss.len() - 1)).union(nested_indexed_stmt(ss[ss.len() - 1]))
    }
}

pub open spec fn nested_indexed_args(args: Seq<Arg>) -> Set<(Span, PlaceholderKind)>
    decreases args, 0int,
{
    if args.len() == 0 {
        Set::empty()
    } else {
        nested_indexed_args(args.subrange(0, args.len() - 1)).union(nested_indexed_expr(args[args.len() - 1].value))
    }
}

pub open spec fn nested_indexed_stmt(s: Stmt) -> Set<(Span, PlaceholderKind)>
    decreases s, 0int,
{
    match s {
        Stmt::Assign { target, value, .. } => nested_indexed_expr(target).union(nested_indexed_expr(value)),
        Stmt::Expr(e) => nested_indexed_expr(e),
        Stmt::If { cond, then, else_, .. } => nested_indexed_expr(cond).union(nested_indexed_stmts(then@)).union(
            match else_ {
                Some(b) => nested_indexed_stmts(b@),
                None => Set::empty(),
            },
        ),
        Stmt::For { iter, body, .. } => nested_indexed_expr(iter).union(nested_indexed_stmts(body@)),
        Stmt::While { cond, body, .. } => nested_indexed_expr(cond).union(nested_indexed_stmts(body@)),
        Stmt::FunctionDef { body, .. } => indexed_stmts(body@),
        Stmt::Return { value, .. } => match value {
            Some(v) => nested_indexed_expr(v),
            None => Set::empty(),
        },
    }
}

pub open spec fn nested_indexed_expr(e: Expr) -> Set<(Span, PlaceholderKind)>
    decreases e, 0int,
{
    match e {
        Expr::Call { func, args, .. } => nested_indexed_expr(*func).union(nested_indexed_args(args@)),
        Expr::BinOp { lhs, rhs, .. } => nested_indexed_expr(*lhs).union(nested_indexed_expr(*rhs)),
        Expr::UnaryOp { expr, .. } => nested_indexed_expr(*expr),
        Expr::Index { base, kind, args, .. } => nested_indexed_expr(*base).union(
            if kind == IndexKind::Dollar {
                Set::empty()
            } else {
                nested_indexed_args(args@)
            },
        ),
        Expr::Function { body, .. } => indexed_stmts(body@),
        Expr::Block { body, .. } => nested_indexed_stmts(body@),
        Expr::If { cond, then, else_, .. } => nested_indexed_expr(*cond).union(nested_indexed_expr(*then)).union(
            match else_ {
                Some(b) => nested_indexed_expr(*b),
                None => Set::empty(),
            },
        ),
        _ => Set::empty(),
    }
}

/// Index every placeholder function literal of a statement list and of
/// the function bodies nested in it, each scanned as a scope of its own,
/// with the strongest replacement that targets it.
pub fn index_dynamic_closure_literals(stmts: &Vec<Stmt>, out: &mut Vec<(Span, PlaceholderKind)>)
    ensures
        pair_set(final(out)@) == pair_set(old(out)@).union(indexed_stmts(stmts@)),
    decreases stmts, 1int,
{
    let ghost start = out@;
    let targets = replacement_targets(stmts);
    scope_placeholder_spans(stmts, &targets, out);
    proof {
        let f = facts_stmts(stmts@, scope_reach());
        assert(placeholders_with(f.1, targets@) =~= scope_placeholders(stmts@)) by {
            assert forall|p: (Span, PlaceholderKind)| placeholders_with(f.1, targets@).contains(p) == scope_placeholders(stmts@).contains(p) by {
                if placeholders_with(f.1, targets@).contains(p) {
                    let name = choose|name: Seq<char>| #[trigger] f.1.contains((name, p.0)) && has_entry(targets@, name, p.1);
                    assert(target_kind(f.0, name) == Some(p.1));
                }
                if scope_placeholders(stmts@).contains(p) {
                    let name = choose|name: Seq<char>| #[trigger] f.1.contains((name, p.0)) && target_kind(f.0, name) == Some(p.1);
                    assert(has_entry(targets@, name, p.1));
                }
            }
        }
    }
    index_nested_stmts(stmts, out);
    assert(pair_set(out@) =~= pair_set(start).union(indexed_stmts(stmts@)));
}

fn index_nested_stmts(ss: &Vec<Stmt>, out: &mut Vec<(Span, PlaceholderKind)>)
    ensures
        pair_set(final(out)@) == pair_set(old(out)@).union(nested_indexed_stmts(ss@)),
    decreases ss, 0int,
{
    let ghost start = out@;
    let mut i: usize = 0;
    assert(ss@.take(0) =~= Seq::<Stmt>::empty());
    assert(pair_set(out@) =~= pair_set(start).union(nested_indexed_stmts(ss@.take(0))));
    while i < ss.len()
        invariant
            i <= ss@.len(),
            pair_set(out@) == pair_set(start).union(nested_indexed_stmts(ss@.take(i as int))),
        decreases ss.len() - i,
    {
        proof {
            assert(decreases_to!(ss => ss@));
            assert(decreases_to!(ss@ => ss@[i as int]));
        }
        index_nested_stmt(&ss[i], out);
        proof {
            let t = ss@.take(i + 1);
            assert(t.subrange(0, t.len() - 1) =~= ss@.take(i as int));
            assert(t[t.len() - 1] == ss@[i as int]);
            assert(pair_set(out@) =~= pair_set(start).union(nested_indexed_stmts(t)));
        }
        i = i + 1;
    }
    assert(ss@.take(ss@.len() as int) =~= ss@);
}

fn index_nested_args(args: &Vec<Arg>, out: &mut Vec<(Span, PlaceholderKind)>)
    ensures
        pair_set(final(out)@) == pair_set(old(out)@).union(nested_indexed_args(args@)),
    decreases args, 0int,
{
    let ghost start = out@;
    let mut i: usize = 0;
    assert(args@.take(0) =~= Seq::<Arg>::empty());
    assert(pair_set(out@) =~= pair_set(start).union(nested_indexed_args(args@.take(0))));
    while i < args.len()
        invariant
            i <= args@.len(),
            pair_set(out@) == pair_set(start).union(nested_indexed_args(args@.take(i as int))),
        decreases args.len() - i,
    {
        proof {
            assert(decreases_to!(args => args@));
            assert(decreases_to!(args@ => args@[i as int]));
            assert(decreases_to!(args@[i as int] => args@[i as int].value));
        }
        index_nested_expr(&args[i].value, out);
        proof {
            let t = args@.take(i + 1);
            assert(t.subrange(0, t.len() - 1) =~= args@.take(i as int));
            assert(t[t.len() - 1] == args@[i as int]);
            assert(pair_set(out@) =~= pair_set(start).union(nested_indexed_args(t)));
        }
        i = i + 1;
    }
    assert(args@.take(args@.len() as int) =~= args@);
}

fn index_nested_stmt(s: &Stmt, out: &mut Vec<(Span, PlaceholderKind)>)
    ensures
        pair_set(final(out)@) == pair_set(old(out)@).union(nested_indexed_stmt(*s)),
    decreases s, 0int,
{
    let ghost start = out@;
    match s {
        Stmt::Assign { target, value, .. } => {
            index_nested_expr(target, out);
            index_nested_expr(value, out);
        },
        Stmt::Expr(e) => index_nested_expr(e, out),
        Stmt::If { cond, then, else_, .. } => {
            index_nested_expr(cond, out);
            index_nested_stmts(then, out);
            if let Some(b) = else_ {
                index_nested_stmts(b, out);
            }
        },
        Stmt::For { iter, body, .. } => {
            index_nested_expr(iter, out);
            index_nested_stmts(body, out);
        },
        Stmt::While { cond, body, .. } => {
            index_nested_expr(cond, out);
            index_nested_stmts(body, out);
        },
        Stmt::FunctionDef { body, .. } => index_dynamic_closure_literals(body, out),
        Stmt::Return { value, .. } => {
            if let Some(v) = value {
                index_nested_expr(v, out);
            }
        },
    }
    assert(pair_set(out@) =~= pair_set(start).union(nested_indexed_stmt(*s)));
}

fn index_nested_expr(e: &Expr, out: &mut Vec<(Span, PlaceholderKind)>)
    ensures
        pair_set(final(out)@) == pair_set(old(out)@).union(nested_indexed_expr(*e)),
    decreases e, 0int,
{
    let ghost start = out@;
    match e {
        Expr::Call { func, args, .. } => {
            index_nested_expr(func, out);
            index_nested_args(args, out);
        },
        Expr::BinOp { lhs, rhs, .. } => {
            index_nested_expr(lhs, out);
            index_nested_expr(rhs, out);
        },
        Expr::UnaryOp { expr, .. } => index_nested_expr(expr, out),
        Expr::Index { base, kind, args, .. } => {
            index_nested_expr(base, out);
            if *kind != IndexKind::Dollar {
                index_nested_args(args, out);
            }
        },
        Expr::Function { body, .. } => index_dynamic_closure_literals(body, out),
        Expr::Block { body, .. } => index_nested_stmts(body, out),
        Expr::If { cond, then, else_, .. } => {
            index_nested_expr(cond, out);
            index_nested_expr(then, out);
            if let Some(b) = else_ {
                index_nested_expr(b, out);
            }
        },
        _ => {},
    }
    assert(pair_set(out@) =~= pair_set(start).union(nested_indexed_expr(*e)));
}

} // verus!
