//! Syntactic collections of the names a function body binds: the locals it
//! assigns, and the enclosing bindings its superassignments (`<<-`) can
//! reach.
use vstd::prelude::*;
use crate::ast::{BinOpKind, Expr, Param, Stmt, lemma_call_arg_decreases};
use crate::scope::{Scope, add_name, has_name, lookup, names_contain, names_same};
use crate::types::{RType, is_unknown_type};

verus! {

/// The names a list holds, as a set.
pub open spec fn name_set(v: Seq<String>) -> Set<Seq<char>> {
    Set::new(|n: Seq<char>| has_name(v, n))
}

/// The name an identifier binds, if `e` is one.
pub open spec fn ident_set(e: Expr) -> Set<Seq<char>> {
    match e {
        Expr::Ident { name, .. } => set![name@],
        _ => Set::empty(),
    }
}

/// The names a statement list binds in its own frame: plain assignment
/// targets, `for` iterators, and expression-position `<-`/`<<-` targets,
/// found through assignment values, statement bodies, braced-block values
/// and `if`-expression branches. Function bodies, control tests and
/// assignment targets are not entered, and any other expression binds
/// nothing.
pub open spec fn bound_in_stmts(ss: Seq<Stmt>) -> Set<Seq<char>>
    decreases ss,
{
    if ss.len() == 0 {
        Set::empty()
    } else {
        bound_in_stmts(ss.subrange(0, ss.len() - 1)).union(bound_in_stmt(ss[ss.len() - 1]))
    }
}

/// The names one statement binds (see `bound_in_stmts`).
pub open spec fn bound_in_stmt(s: Stmt) -> Set<Seq<char>>
    decreases s,
{
    match s {
        Stmt::Assign { target, value, .. } => ident_set(target).union(bound_in_expr(value)),
        Stmt::Expr(e) => bound_in_expr(e),
        Stmt::If { then, else_, .. } => bound_in_stmts(then@).union(
            match else_ {
                Some(b) => bound_in_stmts(b@),
                None => Set::empty(),
            },
        ),
        Stmt::For { name, body, .. } => set![name@].union(bound_in_stmts(body@)),
        Stmt::While { body, .. } => bound_in_stmts(body@),
        Stmt::FunctionDef { .. } => Set::empty(),
        Stmt::Return { value, .. } => match value {
            Some(v) => bound_in_expr(v),
            None => Set::empty(),
        },
    }
}

/// The names an expression binds (see `bound_in_stmts`).
pub open spec fn bound_in_expr(e: Expr) -> Set<Seq<char>>
    decreases e,
{
    match e {
        Expr::BinOp { op, lhs, rhs, .. } => if op == BinOpKind::Assign || op
            == BinOpKind::SuperAssign {
            ident_set(*lhs).union(bound_in_expr(*rhs))
        } else {
            Set::empty()
        },
        Expr::Block { body, .. } => bound_in_stmts(body@),
        Expr::If { then, else_, .. } => bound_in_expr(*then).union(
            match else_ {
                Some(b) => bound_in_expr(*b),
                None => Set::empty(),
            },
        ),
        _ => Set::empty(),
    }
}

/// Add the identifier `e` names, if it is one.
fn add_ident(e: &Expr, out: &mut Vec<String>)
    ensures
        name_set(final(out)@) == name_set(old(out)@).union(ident_set(*e)),
{
    let ghost before = out@;
    if let Expr::Ident { name, .. } = e {
        add_name(out, name.as_str());
    }
    assert(name_set(out@) =~= name_set(before).union(ident_set(*e)));
}

fn collect_bound_stmts(ss: &Vec<Stmt>, out: &mut Vec<String>)
    ensures
        name_set(final(out)@) == name_set(old(out)@).union(bound_in_stmts(ss@)),
    decreases ss,
{
    let ghost start = out@;
    let mut i: usize = 0;
    assert(ss@.take(0) =~= Seq::<Stmt>::empty());
    assert(name_set(out@) =~= name_set(start).union(bound_in_stmts(ss@.take(0))));
    while i < ss.len()
        invariant
            i <= ss@.len(),
            name_set(out@) == name_set(start).union(bound_in_stmts(ss@.take(i as int))),
        decreases ss.len() - i,
    {
        proof {
            assert(decreases_to!(ss => ss@));
            assert(decreases_to!(ss@ => ss@[i as int]));
        }
        let ghost mid = out@;
        collect_bound_stmt(&ss[i], out);
        proof {
            let t = ss@.take(i + 1);
            assert(t.subrange(0, t.len() - 1) =~= ss@.take(i as int));
            assert(t[t.len() - 1] == ss@[i as int]);
            assert(name_set(out@) =~= name_set(start).union(bound_in_stmts(t)));
        }
        i = i + 1;
    }
    assert(ss@.take(ss@.len() as int) =~= ss@);
}

pub(crate) fn collect_bound_stmt(s: &Stmt, out: &mut Vec<String>)
    ensures
        name_set(final(out)@) == name_set(old(out)@).union(bound_in_stmt(*s)),
    decreases s,
{
    let ghost before = out@;
    match s {
        Stmt::Assign { target, value, .. } => {
            add_ident(target, out);
            collect_bound_expr(value, out);
        },
        Stmt::Expr(e) => collect_bound_expr(e, out),
        Stmt::If { then, else_, .. } => {
            collect_bound_stmts(then, out);
            if let Some(b) = else_ {
                collect_bound_stmts(b, out);
            }
        },
        Stmt::For { name, body, .. } => {
            add_name(out, name.as_str());
            collect_bound_stmts(body, out);
        },
        Stmt::While { body, .. } => collect_bound_stmts(body, out),
        Stmt::FunctionDef { .. } => {},
        Stmt::Return { value, .. } => {
            if let Some(v) = value {
                collect_bound_expr(v, out);
            }
        },
    }
    assert(name_set(out@) =~= name_set(before).union(bound_in_stmt(*s)));
}

fn collect_bound_expr(e: &Expr, out: &mut Vec<String>)
    ensures
        name_set(final(out)@) == name_set(old(out)@).union(bound_in_expr(*e)),
    decreases e,
{
    let ghost before = out@;
    match e {
        Expr::BinOp { op, lhs, rhs, .. } => {
            if *op == BinOpKind::Assign || *op == BinOpKind::SuperAssign {
                add_ident(lhs, out);
                collect_bound_expr(rhs, out);
            }
        },
        Expr::Block { body, .. } => collect_bound_stmts(body, out),
        Expr::If { then, else_, .. } => {
            collect_bound_expr(then, out);
            if let Some(b) = else_ {
                collect_bound_expr(b, out);
            }
        },
        _ => {},
    }
    assert(name_set(out@) =~= name_set(before).union(bound_in_expr(*e)));
}

/// The names assigned anywhere in a function body, the candidates for
/// closure capture (see `bound_in_stmts`).
pub fn assigned_names_in_body(body: &Vec<Stmt>) -> (r: Vec<String>)
    ensures
        name_set(r@) == bound_in_stmts(body@),
{
    let mut out: Vec<String> = Vec::new();
    assert(name_set(out@) =~= Set::<Seq<char>>::empty());
    collect_bound_stmts(body, &mut out);
    assert(name_set(out@) =~= bound_in_stmts(body@));
    out
}

/// The names of `params`, as a list.
pub open spec fn param_name_list(params: Seq<Param>) -> Seq<String> {
    params.map_values(|p: Param| p.name)
}

/// The name a `<<-` target rebinds: an identifier or string names itself,
/// a subscript rebinds its base, and a replacement call rebinds its first
/// argument; other targets name nothing.
pub open spec fn root_spec(e: Expr) -> Option<Seq<char>>
    decreases e,
{
    match e {
        Expr::Ident { name, .. } => Some(name@),
        Expr::String(s, _) => Some(s@),
        Expr::Index { base, .. } => root_spec(*base),
        Expr::Call { args, .. } => if args@.len() > 0 {
            root_spec(args@[0].value)
        } else {
            None
        },
        _ => None,
    }
}

/// The name a `<<-` target rebinds (see `root_spec`).
pub fn superassignment_root(target: &Expr) -> (r: Option<String>)
    ensures
        match r {
            Some(s) => root_spec(*target) == Some(s@),
            None => root_spec(*target) is None,
        },
    decreases target,
{
    match target {
        Expr::Ident { name, .. } => Some(name.clone()),
        Expr::String(s, _) => Some(s.clone()),
        Expr::Index { base, .. } => superassignment_root(base),
        Expr::Call { args, .. } => {
            if args.len() > 0 {
                proof {
                    lemma_call_arg_decreases(*target, 0);
                }
                superassignment_root(&args[0].value)
            } else {
                None
            }
        },
        _ => None,
    }
}

/// A plain `<<-` target: an identifier or a string.
pub open spec fn plain_target_spec(e: Expr) -> bool {
    e is Ident || e is String
}

/// Whether a `<<-` target is a plain name rather than a subscripted or
/// replacement-call target.
pub fn plain_superassignment_target(target: &Expr) -> (r: bool)
    ensures
        r == plain_target_spec(*target),
{
    match target {
        Expr::Ident { .. } | Expr::String(..) => true,
        _ => false,
    }
}

/// Whether a plain `<<-` of `n` written in the innermost of the enclosing
/// function literals `frames` (outermost first) is absorbed before it
/// reaches the scanned scope: `<<-` skips the writing frame, and every
/// other enclosing literal's formals, and (below the top level) the
/// formals `root` of the function whose body is scanned, intercept it.
pub open spec fn intercepts_spec(frames: Seq<Seq<String>>, root: Seq<String>, n: Seq<char>) -> bool {
    ||| (frames.len() > 0 && has_name(root, n))
    ||| exists|j: int| 0 <= j < frames.len() - 1 && #[trigger] has_name(frames[j], n)
}

/// The formals of the function frames between a nested `<<-` and the
/// scanned scope.
#[derive(Debug)]
pub struct InterveningFormals {
    /// `frames[d]`: the formals of the function literal entered at nesting
    /// depth `d`.
    pub frames: Vec<Vec<String>>,
    /// The formals of the function whose body the scan starts from.
    pub root: Vec<String>,
}

/// The names of `params`, in order.
fn param_names_vec(params: &Vec<Param>) -> (r: Vec<String>)
    ensures
        r@ == param_name_list(params@),
{
    let mut out: Vec<String> = Vec::new();
    let mut i: usize = 0;
    while i < params.len()
        invariant
            i <= params@.len(),
            out@ == param_name_list(params@.take(i as int)),
        decreases params.len() - i,
    {
        out.push(params[i].name.clone());
        assert(param_name_list(params@.take(i + 1)) =~= param_name_list(params@.take(i as int)).push(
            params@[i as int].name,
        ));
        i = i + 1;
    }
    assert(params@.take(params@.len() as int) =~= params@);
    out
}

impl InterveningFormals {
    /// No enclosing frames; the scanned function binds `params`.
    pub fn with_root(params: &Vec<Param>) -> (r: InterveningFormals)
        ensures
            r.frames@.len() == 0,
            r.root@ == param_name_list(params@),
    {
        InterveningFormals { frames: Vec::new(), root: param_names_vec(params) }
    }

    /// Record that the literal entered at `depth` binds `params`. Depths
    /// not seen before get empty frames.
    pub fn enter(&mut self, depth: usize, params: &Vec<Param>)
        ensures
            final(self).root == old(self).root,
            final(self).frames@.len() == if old(self).frames@.len() > depth {
                old(self).frames@.len() as int
            } else {
                depth + 1
            },
            final(self).frames@[depth as int]@ == param_name_list(params@),
            forall|j: int|
                0 <= j < old(self).frames@.len() && j != depth ==> final(self).frames@[j]
                    == old(self).frames@[j],
            forall|j: int|
                old(self).frames@.len() <= j < depth ==> final(self).frames@[j]@.len() == 0,
    {
        let names = param_names_vec(params);
        if self.frames.len() > depth {
            self.frames.set(depth, names);
        } else {
            while self.frames.len() < depth
                invariant
                    self.frames@.len() <= depth,
                    self.root == old(self).root,
                    forall|j: int|
                        0 <= j < old(self).frames@.len() ==> self.frames@[j] == old(self).frames@[j],
                    old(self).frames@.len() <= self.frames@.len(),
                    forall|j: int|
                        old(self).frames@.len() <= j < self.frames@.len() ==> self.frames@[j]@.len()
                            == 0,
                decreases depth - self.frames.len(),
            {
                self.frames.push(Vec::new());
            }
            self.frames.push(names);
        }
    }

    /// Whether a plain `<<-` of `name` at nesting `depth` is intercepted
    /// by a frame between the writing frame and the scanned scope.
    pub fn intercepts(&self, depth: usize, name: &str) -> (r: bool)
        requires
            depth <= self.frames@.len() + 1,
        ensures
            r == ((depth > 0 && has_name(self.root@, name@)) || exists|j: int|
                0 <= j < depth - 1 && #[trigger] has_name(self.frames@[j]@, name@)),
    {
        if depth > 0 && names_contain(&self.root, name) {
            return true;
        }
        let upto: usize = if depth > 0 {
            depth - 1
        } else {
            0
        };
        let mut j: usize = 0;
        while j < upto
            invariant
                j <= upto,
                upto <= self.frames@.len(),
                upto == if depth > 0 { depth - 1 } else { 0 },
                !(depth > 0 && has_name(self.root@, name@)),
                forall|k: int| 0 <= k < j ==> !#[trigger] has_name(self.frames@[k]@, name@),
            decreases upto - j,
        {
            if names_contain(&self.frames[j], name) {
                return true;
            }
            j = j + 1;
        }
        false
    }
}

/// What a scan collects: the rebound names, and whether some target names
/// no binding.
pub open spec fn no_writes() -> (Set<Seq<char>>, bool) {
    (Set::empty(), false)
}

/// Two collections together.
pub open spec fn both(a: (Set<Seq<char>>, bool), b: (Set<Seq<char>>, bool)) -> (Set<Seq<char>>, bool) {
    (a.0.union(b.0), a.1 || b.1)
}

/// What a `<<-` with target `lhs`, written inside the literals `frames`,
/// contributes: a root that cannot be named is opaque; a complex target's
/// root is always rebound; a plain target is rebound unless intercepted.
pub open spec fn target_writes(lhs: Expr, frames: Seq<Seq<String>>, root: Seq<String>) -> (Set<Seq<char>>, bool) {
    match root_spec(lhs) {
        None => (Set::empty(), true),
        Some(n) => if !plain_target_spec(lhs) || !intercepts_spec(frames, root, n) {
            (set![n], false)
        } else {
            no_writes()
        },
    }
}

/// The superassignments in a statement list that reach the scanned scope,
/// entering every sub-expression and nested function body; `frames` are
/// the formals of the function literals around the statements.
pub open spec fn writes_in_stmts(ss: Seq<Stmt>, frames: Seq<Seq<String>>, root: Seq<String>) -> (Set<Seq<char>>, bool)
    decreases ss,
{
    if ss.len() == 0 {
        no_writes()
    } else {
        both(
            writes_in_stmts(ss.subrange(0, ss.len() - 1), frames, root),
            writes_in_stmt(ss[ss.len() - 1], frames, root),
        )
    }
}

/// The superassignments in one statement (see `writes_in_stmts`).
pub open spec fn writes_in_stmt(s: Stmt, frames: Seq<Seq<String>>, root: Seq<String>) -> (Set<Seq<char>>, bool)
    decreases s,
{
    match s {
        Stmt::Assign { target, value, .. } => both(
            writes_in_expr(target, frames, root),
            writes_in_expr(value, frames, root),
        ),
        Stmt::Expr(e) => writes_in_expr(e, frames, root),
        Stmt::If { cond, then, else_, .. } => both(
            both(writes_in_expr(cond, frames, root), writes_in_stmts(then@, frames, root)),
            match else_ {
                Some(b) => writes_in_stmts(b@, frames, root),
                None => no_writes(),
            },
        ),
        Stmt::For { iter, body, .. } => both(
            writes_in_expr(iter, frames, root),
            writes_in_stmts(body@, frames, root),
        ),
        Stmt::While { cond, body, .. } => both(
            writes_in_expr(cond, frames, root),
            writes_in_stmts(body@, frames, root),
        ),
        Stmt::FunctionDef { params, body, .. } => both(
            writes_in_defaults(params@, frames.push(param_name_list(params@)), root),
            writes_in_stmts(body@, frames.push(param_name_list(params@)), root),
        ),
        Stmt::Return { value, .. } => match value {
            Some(v) => writes_in_expr(v, frames, root),
            None => no_writes(),
        },
    }
}

/// The superassignments in parameter defaults, which run in the frame of
/// the function they belong to.
pub open spec fn writes_in_defaults(ps: Seq<Param>, frames: Seq<Seq<String>>, root: Seq<String>) -> (Set<Seq<char>>, bool)
    decreases ps,
{
    if ps.len() == 0 {
        no_writes()
    } else {
        both(
            writes_in_defaults(ps.subrange(0, ps.len() - 1), frames, root),
            match ps[ps.len() - 1].default {
                Some(d) => writes_in_expr(d, frames, root),
                None => no_writes(),
            },
        )
    }
}

/// The superassignments in call or subscript arguments.
pub open spec fn writes_in_args(args: Seq<crate::ast::Arg>, frames: Seq<Seq<String>>, root: Seq<String>) -> (Set<Seq<char>>, bool)
    decreases args,
{
    if args.len() == 0 {
        no_writes()
    } else {
        both(
            writes_in_args(args.subrange(0, args.len() - 1), frames, root),
            writes_in_expr(args[args.len() - 1].value, frames, root),
        )
    }
}

/// The superassignments in an expression (see `writes_in_stmts`).
pub open spec fn writes_in_expr(e: Expr, frames: Seq<Seq<String>>, root: Seq<String>) -> (Set<Seq<char>>, bool)
    decreases e,
{
    match e {
        Expr::Call { func, args, .. } => both(
            writes_in_expr(*func, frames, root),
            writes_in_args(args@, frames, root),
        ),
        Expr::BinOp { op, lhs, rhs, .. } => both(
            if op == BinOpKind::SuperAssign {
                target_writes(*lhs, frames, root)
            } else {
                no_writes()
            },
            both(writes_in_expr(*lhs, frames, root), writes_in_expr(*rhs, frames, root)),
        ),
        Expr::UnaryOp { expr, .. } => writes_in_expr(*expr, frames, root),
        Expr::Index { base, args, .. } => both(
            writes_in_expr(*base, frames, root),
            writes_in_args(args@, frames, root),
        ),
        Expr::Function { params, body, .. } => both(
            writes_in_defaults(params@, frames.push(param_name_list(params@)), root),
            writes_in_stmts(body@, frames.push(param_name_list(params@)), root),
        ),
        Expr::Block { body, .. } => writes_in_stmts(body@, frames, root),
        Expr::If { cond, then, else_, .. } => both(
            both(writes_in_expr(*cond, frames, root), writes_in_expr(*then, frames, root)),
            match else_ {
                Some(b) => writes_in_expr(*b, frames, root),
                None => no_writes(),
            },
        ),
        _ => no_writes(),
    }
}

/// The enclosing-scope bindings a body may write through `<<-`.
#[derive(Debug)]
pub struct SuperassignmentWrites {
    /// Rebound names.
    pub names: Vec<String>,
    /// Some target's rebound binding cannot be named.
    pub opaque: bool,
}

impl SuperassignmentWrites {
    /// Install the writes in `scope`: every rebound name becomes opaque,
    /// and an opaque target marks every binding as possibly changed.
    pub fn apply(&self, scope: &mut Scope)
        ensures
            forall|n: Seq<char>|
                #![trigger lookup(*final(scope), n)]
                name_set(self.names@).contains(n) ==> lookup(*final(scope), n) is Some
                    && is_unknown_type(lookup(*final(scope), n)->0),
            forall|n: Seq<char>|
                #![trigger lookup(*final(scope), n)]
                !name_set(self.names@).contains(n) ==> lookup(*final(scope), n) == lookup(
                    *old(scope),
                    n,
                ),
            names_same(old(scope).parameters@, final(scope).parameters@),
            final(scope).effects_unknown == (old(scope).effects_unknown || self.opaque),
    {
        let ghost s0 = *scope;
        let mut i: usize = 0;
        while i < self.names.len()
            invariant
                i <= self.names@.len(),
                scope.effects_unknown == s0.effects_unknown,
                names_same(s0.parameters@, scope.parameters@),
                forall|n: Seq<char>|
                    #![trigger lookup(*scope, n)]
                    has_name(self.names@.take(i as int), n) ==> lookup(*scope, n) is Some
                        && is_unknown_type(lookup(*scope, n)->0),
                forall|n: Seq<char>|
                    #![trigger lookup(*scope, n)]
                    !has_name(self.names@.take(i as int), n) ==> lookup(*scope, n) == lookup(s0, n),
            decreases self.names.len() - i,
        {
            let ghost before = *scope;
            let u = RType::unknown();
            let ghost ug = u;
            scope.insert(self.names[i].as_str(), u);
            proof {
                let t = self.names@.take(i + 1);
                assert forall|n: Seq<char>| has_name(t, n) == (has_name(self.names@.take(i as int), n) || n == self.names@[i as int]@) by {
                    if has_name(t, n) {
                        let k = choose|k: int| 0 <= k < t.len() && #[trigger] t[k]@ == n;
                        if k < i {
                            assert(self.names@.take(i as int)[k] == t[k]);
                        }
                    }
                    if has_name(self.names@.take(i as int), n) {
                        let k = choose|k: int| 0 <= k < i && #[trigger] self.names@.take(i as int)[k]@ == n;
                        assert(t[k] == self.names@.take(i as int)[k]);
                    }
                    if n == self.names@[i as int]@ {
                        assert(t[i as int]@ == n);
                    }
                }
                assert forall|n: Seq<char>| #![trigger lookup(*scope, n)]
                    has_name(t, n) ==> lookup(*scope, n) is Some && is_unknown_type(lookup(*scope, n)->0) by {
                    assert(lookup(*scope, n) == if n == self.names@[i as int]@ { Some(ug) } else { lookup(before, n) });
                }
            }
            i = i + 1;
        }
        proof {
            assert(self.names@.take(self.names@.len() as int) =~= self.names@);
        }
        let ghost s1 = *scope;
        if self.opaque {
            scope.invalidate_unknown_effects();
        }
        proof {
            assert(scope.bindings == s1.bindings);
            assert forall|n: Seq<char>| #![trigger lookup(*scope, n)]
                name_set(self.names@).contains(n) ==> lookup(*scope, n) is Some && is_unknown_type(lookup(*scope, n)->0) by {
                assert(lookup(*scope, n) == lookup(s1, n));
            }
            assert forall|n: Seq<char>| #![trigger lookup(*scope, n)]
                !name_set(self.names@).contains(n) ==> lookup(*scope, n) == lookup(s0, n) by {
                assert(lookup(*scope, n) == lookup(s1, n));
            }
        }
    }
}

/// The frames of `f`, as name lists.
pub open spec fn frame_views(f: Seq<Vec<String>>) -> Seq<Seq<String>> {
    f.map_values(|v: Vec<String>| v@)
}

/// `w` extends `w0` by the collection `c`.
pub open spec fn extends(w: SuperassignmentWrites, w0: SuperassignmentWrites, c: (Set<Seq<char>>, bool)) -> bool {
    &&& name_set(w.names@) == name_set(w0.names@).union(c.0)
    &&& w.opaque == (w0.opaque || c.1)
}

proof fn lemma_extends_both(
    w2: SuperassignmentWrites,
    w1: SuperassignmentWrites,
    w0: SuperassignmentWrites,
    a: (Set<Seq<char>>, bool),
    b: (Set<Seq<char>>, bool),
)
    requires
        extends(w1, w0, a),
        extends(w2, w1, b),
    ensures
        extends(w2, w0, both(a, b)),
{
    assert(name_set(w2.names@) =~= name_set(w0.names@).union(both(a, b).0));
}

proof fn lemma_extends_none(w: SuperassignmentWrites)
    ensures
        extends(w, w, no_writes()),
{
    assert(name_set(w.names@) =~= name_set(w.names@).union(no_writes().0));
}

/// Record the contribution of a `<<-` with target `lhs`.
fn record_target(lhs: &Expr, formals: &InterveningFormals, writes: &mut SuperassignmentWrites)
    ensures
        extends(
            *final(writes),
            *old(writes),
            target_writes(*lhs, frame_views(formals.frames@), formals.root@),
        ),
{
    let ghost w0 = *writes;
    let ghost fr = frame_views(formals.frames@);
    match superassignment_root(lhs) {
        None => {
            writes.opaque = true;
            assert(name_set(writes.names@) =~= name_set(w0.names@).union(Set::empty()));
        },
        Some(name) => {
            let depth = formals.frames.len();
            let plain = plain_superassignment_target(lhs);
            let blocked = plain && formals.intercepts(depth, name.as_str());
            proof {
                assert(fr.len() == depth);
                if plain {
                    assert(blocked == intercepts_spec(fr, formals.root@, name@)) by {
                        if exists|j: int| 0 <= j < depth - 1 && #[trigger] has_name(formals.frames@[j]@, name@) {
                            let j = choose|j: int| 0 <= j < depth - 1 && #[trigger] has_name(formals.frames@[j]@, name@);
                            assert(fr[j] == formals.frames@[j]@);
                        }
                        if exists|j: int| 0 <= j < fr.len() - 1 && #[trigger] has_name(fr[j], name@) {
                            let j = choose|j: int| 0 <= j < fr.len() - 1 && #[trigger] has_name(fr[j], name@);
                            assert(fr[j] == formals.frames@[j]@);
                        }
                    }
                }
            }
            if !blocked {
                add_name(&mut writes.names, name.as_str());
                assert(name_set(writes.names@) =~= name_set(w0.names@).union(set![name@]));
            } else {
                assert(name_set(writes.names@) =~= name_set(w0.names@).union(Set::empty()));
            }
        },
    }
}

fn scan_writes_stmts(ss: &Vec<Stmt>, formals: &mut InterveningFormals, writes: &mut SuperassignmentWrites)
    ensures
        final(formals).frames@ == old(formals).frames@,
        final(formals).root@ == old(formals).root@,
        extends(
            *final(writes),
            *old(writes),
            writes_in_stmts(ss@, frame_views(old(formals).frames@), old(formals).root@),
        ),
    decreases ss,
{
    let ghost w0 = *writes;
    let ghost fr = frame_views(formals.frames@);
    let ghost rt = formals.root@;
    let ghost frames0 = formals.frames@;
    let mut i: usize = 0;
    proof {
        assert(ss@.take(0) =~= Seq::<Stmt>::empty());
        lemma_extends_none(*writes);
    }
    while i < ss.len()
        invariant
            i <= ss@.len(),
            formals.frames@ == frames0,
            formals.root@ == rt,
            fr == frame_views(frames0),
            extends(*writes, w0, writes_in_stmts(ss@.take(i as int), fr, rt)),
        decreases ss.len() - i,
    {
        proof {
            assert(decreases_to!(ss => ss@));
            assert(decreases_to!(ss@ => ss@[i as int]));
        }
        let ghost w1 = *writes;
        scan_writes_stmt(&ss[i], formals, writes);
        proof {
            let t = ss@.take(i + 1);
            assert(t.subrange(0, t.len() - 1) =~= ss@.take(i as int));
            assert(t[t.len() - 1] == ss@[i as int]);
            lemma_extends_both(*writes, w1, w0, writes_in_stmts(ss@.take(i as int), fr, rt), writes_in_stmt(ss@[i as int], fr, rt));
        }
        i = i + 1;
    }
    assert(ss@.take(ss@.len() as int) =~= ss@);
}

fn scan_writes_args(args: &Vec<crate::ast::Arg>, formals: &mut InterveningFormals, writes: &mut SuperassignmentWrites)
    ensures
        final(formals).frames@ == old(formals).frames@,
        final(formals).root@ == old(formals).root@,
        extends(
            *final(writes),
            *old(writes),
            writes_in_args(args@, frame_views(old(formals).frames@), old(formals).root@),
        ),
    decreases args,
{
    let ghost w0 = *writes;
    let ghost fr = frame_views(formals.frames@);
    let ghost rt = formals.root@;
    let ghost frames0 = formals.frames@;
    let mut i: usize = 0;
    proof {
        assert(args@.take(0) =~= Seq::<crate::ast::Arg>::empty());
        lemma_extends_none(*writes);
    }
    while i < args.len()
        invariant
            i <= args@.len(),
            formals.frames@ == frames0,
            formals.root@ == rt,
            fr == frame_views(frames0),
            extends(*writes, w0, writes_in_args(args@.take(i as int), fr, rt)),
        decreases args.len() - i,
    {
        proof {
            assert(decreases_to!(args => args@));
            assert(decreases_to!(args@ => args@[i as int]));
            assert(decreases_to!(args@[i as int] => args@[i as int].value));
        }
        let ghost w1 = *writes;
        scan_writes_expr(&args[i].value, formals, writes);
        proof {
            let t = args@.take(i + 1);
            assert(t.subrange(0, t.len() - 1) =~= args@.take(i as int));
            assert(t[t.len() - 1] == args@[i as int]);
            lemma_extends_both(*writes, w1, w0, writes_in_args(args@.take(i as int), fr, rt), writes_in_expr(args@[i as int].value, fr, rt));
        }
        i = i + 1;
    }
    assert(args@.take(args@.len() as int) =~= args@);
}

fn scan_writes_defaults(ps: &Vec<Param>, formals: &mut InterveningFormals, writes: &mut SuperassignmentWrites)
    ensures
        final(formals).frames@ == old(formals).frames@,
        final(formals).root@ == old(formals).root@,
        extends(
            *final(writes),
            *old(writes),
            writes_in_defaults(ps@, frame_views(old(formals).frames@), old(formals).root@),
        ),
    decreases ps,
{
    let ghost w0 = *writes;
    let ghost fr = frame_views(formals.frames@);
    let ghost rt = formals.root@;
    let ghost frames0 = formals.frames@;
    let mut i: usize = 0;
    proof {
        assert(ps@.take(0) =~= Seq::<Param>::empty());
        lemma_extends_none(*writes);
    }
    while i < ps.len()
        invariant
            i <= ps@.len(),
            formals.frames@ == frames0,
            formals.root@ == rt,
            fr == frame_views(frames0),
            extends(*writes, w0, writes_in_defaults(ps@.take(i as int), fr, rt)),
        decreases ps.len() - i,
    {
        let ghost w1 = *writes;
        match &ps[i].default {
            Some(d) => {
                proof {
                    assert(decreases_to!(ps => ps@));
                    assert(decreases_to!(ps@ => ps@[i as int]));
                    assert(decreases_to!(ps@[i as int] => ps@[i as int].default));
                    assert(decreases_to!(ps@[i as int].default => ps@[i as int].default->0));
                }
                scan_writes_expr(d, formals, writes);
            },
            None => {
                proof {
                    lemma_extends_none(*writes);
                }
            },
        }
        proof {
            let t = ps@.take(i + 1);
            assert(t.subrange(0, t.len() - 1) =~= ps@.take(i as int));
            assert(t[t.len() - 1] == ps@[i as int]);
            let c = match ps@[i as int].default {
                Some(d) => writes_in_expr(d, fr, rt),
                None => no_writes(),
            };
            lemma_extends_both(*writes, w1, w0, writes_in_defaults(ps@.take(i as int), fr, rt), c);
        }
        i = i + 1;
    }
    assert(ps@.take(ps@.len() as int) =~= ps@);
}

fn scan_writes_stmt(s: &Stmt, formals: &mut InterveningFormals, writes: &mut SuperassignmentWrites)
    ensures
        final(formals).frames@ == old(formals).frames@,
        final(formals).root@ == old(formals).root@,
        extends(
            *final(writes),
            *old(writes),
            writes_in_stmt(*s, frame_views(old(formals).frames@), old(formals).root@),
        ),
    decreases s,
{
    let ghost w0 = *writes;
    let ghost fr = frame_views(formals.frames@);
    let ghost rt = formals.root@;
    match s {
        Stmt::Assign { target, value, .. } => {
            scan_writes_expr(target, formals, writes);
            let ghost w1 = *writes;
            scan_writes_expr(value, formals, writes);
            proof {
                lemma_extends_both(*writes, w1, w0, writes_in_expr(*target, fr, rt), writes_in_expr(*value, fr, rt));
            }
        },
        Stmt::Expr(e) => scan_writes_expr(e, formals, writes),
        Stmt::If { cond, then, else_, .. } => {
            scan_writes_expr(cond, formals, writes);
            let ghost w1 = *writes;
            scan_writes_stmts(then, formals, writes);
            let ghost w2 = *writes;
            proof {
                lemma_extends_both(w2, w1, w0, writes_in_expr(*cond, fr, rt), writes_in_stmts(then@, fr, rt));
            }
            match else_ {
                Some(b) => scan_writes_stmts(b, formals, writes),
                None => {
                    proof {
                        lemma_extends_none(*writes);
                    }
                },
            }
            proof {
                let c = match else_ {
                    Some(b) => writes_in_stmts(b@, fr, rt),
                    None => no_writes(),
                };
                lemma_extends_both(*writes, w2, w0, both(writes_in_expr(*cond, fr, rt), writes_in_stmts(then@, fr, rt)), c);
            }
        },
        Stmt::For { iter, body, .. } => {
            scan_writes_expr(iter, formals, writes);
            let ghost w1 = *writes;
            scan_writes_stmts(body, formals, writes);
            proof {
                lemma_extends_both(*writes, w1, w0, writes_in_expr(*iter, fr, rt), writes_in_stmts(body@, fr, rt));
            }
        },
        Stmt::While { cond, body, .. } => {
            scan_writes_expr(cond, formals, writes);
            let ghost w1 = *writes;
            scan_writes_stmts(body, formals, writes);
            proof {
                lemma_extends_both(*writes, w1, w0, writes_in_expr(*cond, fr, rt), writes_in_stmts(body@, fr, rt));
            }
        },
        Stmt::FunctionDef { params, body, .. } => {
            let ghost frames0 = formals.frames@;
            let depth = formals.frames.len();
            formals.enter(depth, params);
            let ghost inner = frame_views(frames0).push(param_name_list(params@));
            assert(frame_views(formals.frames@) =~= inner);
            scan_writes_defaults(params, formals, writes);
            let ghost w1 = *writes;
            scan_writes_stmts(body, formals, writes);
            proof {
                lemma_extends_both(*writes, w1, w0, writes_in_defaults(params@, inner, rt), writes_in_stmts(body@, inner, rt));
            }
            formals.frames.pop();
            assert(formals.frames@ =~= frames0);
        },
        Stmt::Return { value, .. } => match value {
            Some(v) => scan_writes_expr(v, formals, writes),
            None => {
                proof {
                    lemma_extends_none(*writes);
                }
            },
        },
    }
}

fn scan_writes_expr(e: &Expr, formals: &mut InterveningFormals, writes: &mut SuperassignmentWrites)
    ensures
        final(formals).frames@ == old(formals).frames@,
        final(formals).root@ == old(formals).root@,
        extends(
            *final(writes),
            *old(writes),
            writes_in_expr(*e, frame_views(old(formals).frames@), old(formals).root@),
        ),
    decreases e,
{
    let ghost w0 = *writes;
    let ghost fr = frame_views(formals.frames@);
    let ghost rt = formals.root@;
    match e {
        Expr::Call { func, args, .. } => {
            scan_writes_expr(func, formals, writes);
            let ghost w1 = *writes;
            scan_writes_args(args, formals, writes);
            proof {
                lemma_extends_both(*writes, w1, w0, writes_in_expr(**func, fr, rt), writes_in_args(args@, fr, rt));
            }
        },
        Expr::BinOp { op, lhs, rhs, .. } => {
            if *op == BinOpKind::SuperAssign {
                record_target(lhs, formals, writes);
            } else {
                proof {
                    lemma_extends_none(*writes);
                }
            }
            let ghost w1 = *writes;
            scan_writes_expr(lhs, formals, writes);
            let ghost w2 = *writes;
            scan_writes_expr(rhs, formals, writes);
            proof {
                let t = if *op == BinOpKind::SuperAssign {
                    target_writes(**lhs, fr, rt)
                } else {
                    no_writes()
                };
                lemma_extends_both(*writes, w2, w1, writes_in_expr(**lhs, fr, rt), writes_in_expr(**rhs, fr, rt));
                lemma_extends_both(*writes, w1, w0, t, both(writes_in_expr(**lhs, fr, rt), writes_in_expr(**rhs, fr, rt)));
            }
        },
        Expr::UnaryOp { expr, .. } => scan_writes_expr(expr, formals, writes),
        Expr::Index { base, args, .. } => {
            scan_writes_expr(base, formals, writes);
            let ghost w1 = *writes;
            scan_writes_args(args, formals, writes);
            proof {
                lemma_extends_both(*writes, w1, w0, writes_in_expr(**base, fr, rt), writes_in_args(args@, fr, rt));
            }
        },
        Expr::Function { params, body, .. } => {
            let ghost frames0 = formals.frames@;
            let depth = formals.frames.len();
            formals.enter(depth, params);
            let ghost inner = frame_views(frames0).push(param_name_list(params@));
            assert(frame_views(formals.frames@) =~= inner);
            scan_writes_defaults(params, formals, writes);
            let ghost w1 = *writes;
            scan_writes_stmts(body, formals, writes);
            proof {
                lemma_extends_both(*writes, w1, w0, writes_in_defaults(params@, inner, rt), writes_in_stmts(body@, inner, rt));
            }
            formals.frames.pop();
            assert(formals.frames@ =~= frames0);
        },
        Expr::Block { body, .. } => scan_writes_stmts(body, formals, writes),
        Expr::If { cond, then, else_, .. } => {
            scan_writes_expr(cond, formals, writes);
            let ghost w1 = *writes;
            scan_writes_expr(then, formals, writes);
            let ghost w2 = *writes;
            proof {
                lemma_extends_both(w2, w1, w0, writes_in_expr(**cond, fr, rt), writes_in_expr(**then, fr, rt));
            }
            match else_ {
                Some(b) => scan_writes_expr(b, formals, writes),
                None => {
                    proof {
                        lemma_extends_none(*writes);
                    }
                },
            }
            proof {
                let c = match else_ {
                    Some(b) => writes_in_expr(**b, fr, rt),
                    None => no_writes(),
                };
                lemma_extends_both(*writes, w2, w0, both(writes_in_expr(**cond, fr, rt), writes_in_expr(**then, fr, rt)), c);
            }
        },
        _ => {
            proof {
                lemma_extends_none(*writes);
            }
        },
    }
}

/// The enclosing-scope bindings the function `params`/`body` may write
/// through `<<-`, at any nesting depth (see `writes_in_stmts`).
pub fn superassignment_writes(params: &Vec<Param>, body: &Vec<Stmt>) -> (r: SuperassignmentWrites)
    ensures
        name_set(r.names@) == writes_in_stmts(body@, seq![], param_name_list(params@)).0,
        r.opaque == writes_in_stmts(body@, seq![], param_name_list(params@)).1,
{
    let mut writes = SuperassignmentWrites { names: Vec::new(), opaque: false };
    let mut formals = InterveningFormals::with_root(params);
    assert(frame_views(formals.frames@) =~= seq![]);
    assert(name_set(writes.names@) =~= Set::empty());
    scan_writes_stmts(body, &mut formals, &mut writes);
    assert(name_set(writes.names@) =~= writes_in_stmts(body@, seq![], param_name_list(params@)).0);
    writes
}

/// The `<<-` writes of a code block passed as an argument, which runs in a
/// fresh frame that binds nothing.
pub fn superassignment_writes_in_expr(expr: &Expr) -> (r: SuperassignmentWrites)
    ensures
        name_set(r.names@) == writes_in_expr(*expr, seq![], seq![]).0,
        r.opaque == writes_in_expr(*expr, seq![], seq![]).1,
{
    let mut writes = SuperassignmentWrites { names: Vec::new(), opaque: false };
    let mut formals = InterveningFormals { frames: Vec::new(), root: Vec::new() };
    assert(frame_views(formals.frames@) =~= seq![]);
    assert(name_set(writes.names@) =~= Set::empty());
    scan_writes_expr(expr, &mut formals, &mut writes);
    assert(name_set(writes.names@) =~= writes_in_expr(*expr, seq![], seq![]).0);
    writes
}

} // verus!
