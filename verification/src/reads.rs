//! The dead-formal index: for every function literal of a file, the set of
//! its own formals that its defaults or body read.
use vstd::prelude::*;
use crate::assigned::name_set;
use crate::ast::{Arg, Expr, Param, Span, Stmt};
use crate::matching::{dots_text, is_dots, semantic_argument_name, semantic_name};
use crate::scope::{add_name, copy_names, has_name, names_contain};

verus! {

/// The names a function's formals bind, quotes removed, without `...`.
pub open spec fn formal_tags(ps: Seq<Param>) -> Set<Seq<char>> {
    Set::new(
        |t: Seq<char>|
            exists|i: int|
                0 <= i < ps.len() && ps[i].name@ != dots_text() && #[trigger] semantic_name(
                    ps[i].name@,
                ) == t,
    )
}

/// The names a statement list reads that no function literal inside it
/// binds as a formal. Identifiers read; a plain identifier assignment
/// target is a write; argument tags are not reads; a function literal's
/// defaults and body are scanned and its own formals removed.
pub open spec fn free_stmts(ss: Seq<Stmt>) -> Set<Seq<char>>
    decreases ss, 0int,
{
    if ss.len() == 0 {
        Set::empty()
    } else {
        free_stmts(ss.subrange(0, ss.len() - 1)).union(free_stmt(ss[ss.len() - 1]))
    }
}

/// The free reads of one statement (see `free_stmts`).
pub open spec fn free_stmt(s: Stmt) -> Set<Seq<char>>
    decreases s, 0int,
{
    match s {
        Stmt::Assign { target, value, .. } => free_target(target).union(free_expr(value)),
        Stmt::Expr(e) => free_expr(e),
        Stmt::If { cond, then, else_, .. } => free_expr(cond).union(free_stmts(then@)).union(
            match else_ {
                Some(b) => free_stmts(b@),
                None => Set::empty(),
            },
        ),
        Stmt::For { iter, body, .. } => free_expr(iter).union(free_stmts(body@)),
        Stmt::While { cond, body, .. } => free_expr(cond).union(free_stmts(body@)),
        Stmt::FunctionDef { params, body, .. } => free_defaults(params@).union(
            free_stmts(body@),
        ).difference(formal_tags(params@)),
        Stmt::Return { value, .. } => match value {
            Some(v) => free_expr(v),
            None => Set::empty(),
        },
    }
}

/// The free reads of an assignment target: a plain identifier is a
/// write; a subscript target reads its indices and recurses on its base.
pub open spec fn free_target(e: Expr) -> Set<Seq<char>>
    decreases e, 1int,
{
    match e {
        Expr::Ident { .. } => Set::empty(),
        Expr::Index { base, args, .. } => free_target(*base).union(free_args(args@)),
        _ => free_expr(e),
    }
}

/// The free reads of parameter defaults.
pub open spec fn free_defaults(ps: Seq<Param>) -> Set<Seq<char>>
    decreases ps, 0int,
{
    if ps.len() == 0 {
        Set::empty()
    } else {
        free_defaults(ps.subrange(0, ps.len() - 1)).union(
            match ps[ps.len() - 1].default {
                Some(d) => free_expr(d),
                None => Set::empty(),
            },
        )
    }
}

/// The free reads of argument values.
pub open spec fn free_args(args: Seq<Arg>) -> Set<Seq<char>>
    decreases args, 0int,
{
    if args.len() == 0 {
        Set::empty()
    } else {
        free_args(args.subrange(0, args.len() - 1)).union(free_expr(args[args.len() - 1].value))
    }
}

/// The free reads of an expression (see `free_stmts`).
pub open spec fn free_expr(e: Expr) -> Set<Seq<char>>
    decreases e, 0int,
{
    match e {
        Expr::Function { params, body, .. } => free_defaults(params@).union(free_stmts(body@)).difference(
            formal_tags(params@),
        ),
        Expr::Block { body, .. } => free_stmts(body@),
        Expr::Call { func, args, .. } => free_expr(*func).union(free_args(args@)),
        Expr::BinOp { lhs, rhs, .. } => free_expr(*lhs).union(free_expr(*rhs)),
        Expr::UnaryOp { expr, .. } => free_expr(*expr),
        Expr::Index { base, args, .. } => free_expr(*base).union(free_args(args@)),
        Expr::If { cond, then, else_, .. } => free_expr(*cond).union(free_expr(*then)).union(
            match else_ {
                Some(b) => free_expr(*b),
                None => Set::empty(),
            },
        ),
        Expr::Ident { name, .. } => set![semantic_name(name@)],
        _ => Set::empty(),
    }
}

/// The index a statement list adds to `m`: each function literal, inner
/// ones first, maps its span to the formals its defaults and body read.
pub open spec fn index_stmts(ss: Seq<Stmt>, m: Map<Span, Set<Seq<char>>>) -> Map<Span, Set<Seq<char>>>
    decreases ss, 0int,
{
    if ss.len() == 0 {
        m
    } else {
        index_stmt(ss[ss.len() - 1], index_stmts(ss.subrange(0, ss.len() - 1), m))
    }
}

/// The entry of one function literal, after those of its defaults and body.
pub open spec fn index_function(
    params: Seq<Param>,
    body: Seq<Stmt>,
    span: Span,
    m: Map<Span, Set<Seq<char>>>,
) -> Map<Span, Set<Seq<char>>> {
    index_stmts(body, index_defaults(params, m)).insert(
        span,
        free_defaults(params).union(free_stmts(body)).intersect(formal_tags(params)),
    )
}

/// The index one statement adds (see `index_stmts`).
pub open spec fn index_stmt(s: Stmt, m: Map<Span, Set<Seq<char>>>) -> Map<Span, Set<Seq<char>>>
    decreases s, 0int,
{
    match s {
        Stmt::Assign { target, value, .. } => index_expr(value, index_target(target, m)),
        Stmt::Expr(e) => index_expr(e, m),
        Stmt::If { cond, then, else_, .. } => {
            let m1 = index_stmts(then@, index_expr(cond, m));
            match else_ {
                Some(b) => index_stmts(b@, m1),
                None => m1,
            }
        },
        Stmt::For { iter, body, .. } => index_stmts(body@, index_expr(iter, m)),
        Stmt::While { cond, body, .. } => index_stmts(body@, index_expr(cond, m)),
        Stmt::FunctionDef { params, body, span, .. } => index_stmts(
            body@,
            index_defaults(params@, m),
        ).insert(span, free_defaults(params@).union(free_stmts(body@)).intersect(formal_tags(params@))),
        Stmt::Return { value, .. } => match value {
            Some(v) => index_expr(v, m),
            None => m,
        },
    }
}

/// The index an assignment target adds.
pub open spec fn index_target(e: Expr, m: Map<Span, Set<Seq<char>>>) -> Map<Span, Set<Seq<char>>>
    decreases e, 1int,
{
    match e {
        Expr::Ident { .. } => m,
        Expr::Index { base, args, .. } => index_args(args@, index_target(*base, m)),
        _ => index_expr(e, m),
    }
}

/// The index parameter defaults add.
pub open spec fn index_defaults(ps: Seq<Param>, m: Map<Span, Set<Seq<char>>>) -> Map<Span, Set<Seq<char>>>
    decreases ps, 0int,
{
    if ps.len() == 0 {
        m
    } else {
        let m1 = index_defaults(ps.subrange(0, ps.len() - 1), m);
        match ps[ps.len() - 1].default {
            Some(d) => index_expr(d, m1),
            None => m1,
        }
    }
}

/// The index argument values add.
pub open spec fn index_args(args: Seq<Arg>, m: Map<Span, Set<Seq<char>>>) -> Map<Span, Set<Seq<char>>>
    decreases args, 0int,
{
    if args.len() == 0 {
        m
    } else {
        index_expr(args[args.len() - 1].value, index_args(args.subrange(0, args.len() - 1), m))
    }
}

/// The index an expression adds (see `index_stmts`).
pub open spec fn index_expr(e: Expr, m: Map<Span, Set<Seq<char>>>) -> Map<Span, Set<Seq<char>>>
    decreases e, 0int,
{
    match e {
        Expr::Function { params, body, span } => index_stmts(
            body@,
            index_defaults(params@, m),
        ).insert(span, free_defaults(params@).union(free_stmts(body@)).intersect(formal_tags(params@))),
        Expr::Block { body, .. } => index_stmts(body@, m),
        Expr::Call { func, args, .. } => index_args(args@, index_expr(*func, m)),
        Expr::BinOp { lhs, rhs, .. } => index_expr(*rhs, index_expr(*lhs, m)),
        Expr::UnaryOp { expr, .. } => index_expr(*expr, m),
        Expr::Index { base, args, .. } => index_args(args@, index_expr(*base, m)),
        Expr::If { cond, then, else_, .. } => {
            let m1 = index_expr(*then, index_expr(*cond, m));
            match else_ {
                Some(b) => index_expr(*b, m1),
                None => m1,
            }
        },
        _ => m,
    }
}

/// The reads recorded so far, later entries overriding earlier ones.
pub open spec fn reads_view(m: Seq<(Span, Vec<String>)>) -> Map<Span, Set<Seq<char>>>
    decreases m.len(),
{
    if m.len() == 0 {
        Map::empty()
    } else {
        reads_view(m.drop_last()).insert(m.last().0, name_set(m.last().1@))
    }
}

/// One function on the scan stack: its span, its own formal names, and
/// the reads attributed to it so far.
#[derive(Debug)]
pub struct ReadFrame {
    pub span: Span,
    pub formals: Vec<String>,
    pub reads: Vec<String>,
}

/// Frame `j` is the innermost frame of `fs` binding `t`.
pub open spec fn owns(fs: Seq<ReadFrame>, j: int, t: Seq<char>) -> bool {
    &&& 0 <= j < fs.len()
    &&& has_name(fs[j].formals@, t)
    &&& forall|k: int| j < k < fs.len() ==> !#[trigger] has_name(fs[k].formals@, t)
}

/// The reads of `s` attributed to frame `j`.
pub open spec fn attributed(fs: Seq<ReadFrame>, j: int, s: Set<Seq<char>>) -> Set<Seq<char>> {
    s.filter(|t: Seq<char>| owns(fs, j, t))
}

/// `b` is the stack `a` after scanning code whose free reads are `s`: the
/// same frames, each with the reads it owns added.
pub open spec fn stack_after(a: Seq<ReadFrame>, b: Seq<ReadFrame>, s: Set<Seq<char>>) -> bool {
    &&& b.len() == a.len()
    &&& forall|j: int|
        0 <= j < a.len() ==> (#[trigger] b[j]).span == a[j].span && b[j].formals@ == a[j].formals@
            && name_set(b[j].reads@) == name_set(a[j].reads@).union(attributed(a, j, s))
}

proof fn lemma_stack_refl(a: Seq<ReadFrame>)
    ensures
        stack_after(a, a, Set::empty()),
{
    assert forall|j: int| 0 <= j < a.len() implies name_set(a[j].reads@) == name_set(a[j].reads@).union(
        attributed(a, j, Set::empty()),
    ) by {
        assert(name_set(a[j].reads@) =~= name_set(a[j].reads@).union(attributed(a, j, Set::empty())));
    }
}

proof fn lemma_stack_trans(a: Seq<ReadFrame>, b: Seq<ReadFrame>, c: Seq<ReadFrame>, s: Set<Seq<char>>, t: Set<Seq<char>>)
    requires
        stack_after(a, b, s),
        stack_after(b, c, t),
    ensures
        stack_after(a, c, s.union(t)),
{
    assert forall|j: int| 0 <= j < a.len() implies (#[trigger] c[j]).span == a[j].span && c[j].formals@
        == a[j].formals@ && name_set(c[j].reads@) == name_set(a[j].reads@).union(
        attributed(a, j, s.union(t)),
    ) by {
        assert(b[j].formals@ == a[j].formals@);
        assert forall|x: Seq<char>| owns(b, j, x) == owns(a, j, x) by {
            assert forall|k: int| j < k < a.len() implies b[k].formals@ == a[k].formals@ by {
                assert(b[k].formals@ == a[k].formals@);
            }
        }
        assert(attributed(b, j, t) =~= attributed(a, j, t));
        assert(name_set(c[j].reads@) =~= name_set(a[j].reads@).union(attributed(a, j, s.union(t))));
    }
}

/// Record that `span`'s function reads `reads`.
fn record_reads(map: &mut Vec<(Span, Vec<String>)>, span: Span, reads: Vec<String>)
    ensures
        reads_view(final(map)@) == reads_view(old(map)@).insert(span, name_set(reads@)),
{
    let ghost before = map@;
    map.push((span, reads));
    assert(map@.drop_last() =~= before);
}

/// Entries after position `i` that do not record `span` leave its reads as
/// they were.
proof fn lemma_view_suffix(m: Seq<(Span, Vec<String>)>, i: int, span: Span)
    requires
        0 <= i <= m.len(),
        forall|k: int| i <= k < m.len() ==> (#[trigger] m[k]).0 != span,
    ensures
        reads_view(m).contains_key(span) == reads_view(m.take(i)).contains_key(span),
        reads_view(m).contains_key(span) ==> reads_view(m)[span] == reads_view(m.take(i))[span],
    decreases m.len(),
{
    if m.len() > i {
        assert(m.drop_last().take(i) =~= m.take(i));
        lemma_view_suffix(m.drop_last(), i, span);
    } else {
        assert(m.take(i) =~= m);
    }
}

/// The reads recorded for the function at `span`.
pub fn formal_reads_for(map: &Vec<(Span, Vec<String>)>, span: Span) -> (r: Option<&Vec<String>>)
    ensures
        match r {
            Some(v) => reads_view(map@).contains_key(span) && reads_view(map@)[span] == name_set(v@),
            None => !reads_view(map@).contains_key(span),
        },
{
    let mut i: usize = map.len();
    while i > 0
        invariant
            i <= map@.len(),
            forall|k: int| i <= k < map@.len() ==> (#[trigger] map@[k]).0 != span,
        decreases i,
    {
        if map[i - 1].0 == span {
            proof {
                lemma_view_suffix(map@, i as int, span);
                let t = map@.take(i as int);
                assert(t.drop_last() =~= map@.take(i - 1));
                assert(t.last() == map@[i - 1]);
            }
            return Some(&map[i - 1].1);
        }
        i = i - 1;
    }
    proof {
        lemma_view_suffix(map@, 0, span);
        assert(map@.take(0) =~= Seq::<(Span, Vec<String>)>::empty());
    }
    None
}

/// The innermost frame binding `tag`.
fn owner_index(frames: &Vec<ReadFrame>, tag: &str) -> (r: Option<usize>)
    ensures
        match r {
            Some(j) => owns(frames@, j as int, tag@),
            None => forall|k: int| 0 <= k < frames@.len() ==> !#[trigger] has_name(frames@[k].formals@, tag@),
        },
{
    let mut i: usize = frames.len();
    while i > 0
        invariant
            i <= frames@.len(),
            forall|k: int| i <= k < frames@.len() ==> !#[trigger] has_name(frames@[k].formals@, tag@),
        decreases i,
    {
        if names_contain(&frames[i - 1].formals, tag) {
            return Some(i - 1);
        }
        i = i - 1;
    }
    None
}

fn scan_ident(name: &String, frames: &mut Vec<ReadFrame>)
    ensures
        stack_after(old(frames)@, final(frames)@, set![semantic_name(name@)]),
{
    let ghost f0 = frames@;
    let tag = semantic_argument_name(name.as_str());
    let ghost t = tag@;
    match owner_index(frames, tag.as_str()) {
        Some(j) => {
            let mut reads = copy_names(&frames[j].reads);
            add_name(&mut reads, tag.as_str());
            let frame = ReadFrame { span: frames[j].span, formals: copy_names(&frames[j].formals), reads };
            frames.set(j, frame);
            proof {
                assert forall|k: int| 0 <= k < f0.len() implies (#[trigger] frames@[k]).span == f0[k].span
                    && frames@[k].formals@ == f0[k].formals@ && name_set(frames@[k].reads@) == name_set(
                    f0[k].reads@,
                ).union(attributed(f0, k, set![t])) by {
                    if k == j {
                        assert(attributed(f0, k, set![t]) =~= set![t]);
                        assert(name_set(frames@[k].reads@) =~= name_set(f0[k].reads@).union(set![t]));
                    } else {
                        assert(!owns(f0, k, t));
                        assert(attributed(f0, k, set![t]) =~= Set::empty());
                        assert(name_set(frames@[k].reads@) =~= name_set(f0[k].reads@).union(Set::empty()));
                    }
                }
            }
        },
        None => {
            proof {
                assert forall|k: int| 0 <= k < f0.len() implies (#[trigger] frames@[k]).span == f0[k].span
                    && frames@[k].formals@ == f0[k].formals@ && name_set(frames@[k].reads@) == name_set(
                    f0[k].reads@,
                ).union(attributed(f0, k, set![t])) by {
                    assert(!owns(f0, k, t));
                    assert(attributed(f0, k, set![t]) =~= Set::empty());
                    assert(name_set(frames@[k].reads@) =~= name_set(f0[k].reads@).union(Set::empty()));
                }
            }
        },
    }
}

/// The formal names of `params` a frame records.
fn formal_names(params: &Vec<Param>) -> (r: Vec<String>)
    ensures
        name_set(r@) == formal_tags(params@),
{
    let mut out: Vec<String> = Vec::new();
    let mut i: usize = 0;
    while i < params.len()
        invariant
            i <= params@.len(),
            name_set(out@) == formal_tags(params@.take(i as int)),
        decreases params.len() - i,
    {
        let ghost before = out@;
        if !is_dots(params[i].name.as_str()) {
            let tag = semantic_argument_name(params[i].name.as_str());
            add_name(&mut out, tag.as_str());
        }
        proof {
            let p = params@.take(i + 1);
            let q = params@.take(i as int);
            assert forall|t: Seq<char>| formal_tags(p).contains(t) == (formal_tags(q).contains(t) || (
            params@[i as int].name@ != dots_text() && semantic_name(params@[i as int].name@) == t)) by {
                if formal_tags(p).contains(t) {
                    let k = choose|k: int|
                        0 <= k < p.len() && p[k].name@ != dots_text() && #[trigger] semantic_name(p[k].name@) == t;
                    if k < i {
                        assert(q[k] == p[k]);
                    }
                }
                if formal_tags(q).contains(t) {
                    let k = choose|k: int|
                        0 <= k < q.len() && q[k].name@ != dots_text() && #[trigger] semantic_name(q[k].name@) == t;
                    assert(q[k] == p[k]);
                }
                if params@[i as int].name@ != dots_text() && semantic_name(params@[i as int].name@) == t {
                    assert(p[i as int] == params@[i as int]);
                }
            }
            assert(name_set(out@) =~= formal_tags(p));
        }
        i = i + 1;
    }
    assert(params@.take(params@.len() as int) =~= params@);
    out
}

/// Push the frame of a function literal.
fn enter_frame(params: &Vec<Param>, span: Span, frames: &mut Vec<ReadFrame>)
    ensures
        final(frames)@.len() == old(frames)@.len() + 1,
        forall|j: int| 0 <= j < old(frames)@.len() ==> final(frames)@[j] == old(frames)@[j],
        final(frames)@.last().span == span,
        name_set(final(frames)@.last().formals@) == formal_tags(params@),
        name_set(final(frames)@.last().reads@) == Set::<Seq<char>>::empty(),
{
    let formals = formal_names(params);
    frames.push(ReadFrame { span, formals, reads: Vec::new() });
    assert(name_set(frames@.last().reads@) =~= Set::<Seq<char>>::empty());
}

/// Pop the innermost frame and record the reads it owns.
fn leave_frame(frames: &mut Vec<ReadFrame>, map: &mut Vec<(Span, Vec<String>)>)
    requires
        old(frames)@.len() > 0,
    ensures
        final(frames)@ == old(frames)@.drop_last(),
        reads_view(final(map)@) == reads_view(old(map)@).insert(
            old(frames)@.last().span,
            name_set(old(frames)@.last().reads@),
        ),
{
    let top = frames.pop().unwrap();
    record_reads(map, top.span, top.reads);
}

/// The stack after scanning a function literal in a frame of its own.
proof fn lemma_function_frames(
    f0: Seq<ReadFrame>,
    f1: Seq<ReadFrame>,
    f3: Seq<ReadFrame>,
    params: Seq<Param>,
    inner: Set<Seq<char>>,
)
    requires
        f1.len() == f0.len() + 1,
        forall|j: int| 0 <= j < f0.len() ==> f1[j] == f0[j],
        name_set(f1.last().formals@) == formal_tags(params),
        name_set(f1.last().reads@) == Set::<Seq<char>>::empty(),
        stack_after(f1, f3, inner),
    ensures
        stack_after(f0, f3.drop_last(), inner.difference(formal_tags(params))),
        name_set(f3.last().reads@) == inner.intersect(formal_tags(params)),
{
    let n = f0.len() as int;
    let g = inner.difference(formal_tags(params));
    assert(f1.last() == f1[n]);
    assert(f3.last() == f3[n]);
    assert forall|x: Seq<char>| attributed(f1, n, inner).contains(x) == inner.intersect(formal_tags(params)).contains(x) by {
        if inner.contains(x) && formal_tags(params).contains(x) {
            assert(name_set(f1[n].formals@).contains(x));
        }
    }
    assert(attributed(f1, n, inner) =~= inner.intersect(formal_tags(params)));
    assert(name_set(f3[n].reads@) =~= inner.intersect(formal_tags(params)));
    let f = f3.drop_last();
    assert forall|j: int| 0 <= j < f0.len() implies (#[trigger] f[j]).span == f0[j].span
        && f[j].formals@ == f0[j].formals@ && name_set(f[j].reads@) == name_set(
        f0[j].reads@,
    ).union(attributed(f0, j, g)) by {
        assert(f[j] == f3[j]);
        assert(f1[j] == f0[j]);
        assert forall|x: Seq<char>| (inner.contains(x) && owns(f1, j, x)) <==> (g.contains(x) && owns(f0, j, x)) by {
            if owns(f1, j, x) {
                assert(!has_name(f1[n].formals@, x));
                assert(!name_set(f1[n].formals@).contains(x));
            }
            if g.contains(x) && owns(f0, j, x) {
                assert(!name_set(f1[n].formals@).contains(x));
                assert(!has_name(f1[n].formals@, x));
                assert forall|k: int| j < k < f1.len() implies !#[trigger] has_name(f1[k].formals@, x) by {
                    if k < n {
                        assert(f1[k] == f0[k]);
                    }
                }
            }
        }
        assert(attributed(f1, j, inner) =~= attributed(f0, j, g));
    }
}

/// Scan one function literal: push its frame, scan its defaults and body,
/// pop the frame and record the reads it owns.
pub fn scan_function(
    params: &Vec<Param>,
    body: &Vec<Stmt>,
    span: Span,
    frames: &mut Vec<ReadFrame>,
    map: &mut Vec<(Span, Vec<String>)>,
)
    ensures
        stack_after(
            old(frames)@,
            final(frames)@,
            free_defaults(params@).union(free_stmts(body@)).difference(formal_tags(params@)),
        ),
        reads_view(final(map)@) == index_function(params@, body@, span, reads_view(old(map)@)),
{
    let ghost f0 = frames@;
    enter_frame(params, span, frames);
    let ghost f1 = frames@;
    scan_defaults(params, frames, map);
    let ghost f2 = frames@;
    scan_stmts(body, frames, map);
    proof {
        lemma_stack_trans(f1, f2, frames@, free_defaults(params@), free_stmts(body@));
        lemma_function_frames(f0, f1, frames@, params@, free_defaults(params@).union(free_stmts(body@)));
    }
    leave_frame(frames, map);
}

/// Index every function of `stmts`: `map` receives, for each function
/// literal's span, the formals its defaults and body read.
pub fn index_formal_reads(stmts: &Vec<Stmt>, map: &mut Vec<(Span, Vec<String>)>)
    ensures
        reads_view(final(map)@) == index_stmts(stmts@, reads_view(old(map)@)),
{
    let mut frames: Vec<ReadFrame> = Vec::new();
    scan_stmts(stmts, &mut frames, map);
}

/// Scan a statement list.
pub fn scan_stmts(stmts: &Vec<Stmt>, frames: &mut Vec<ReadFrame>, map: &mut Vec<(Span, Vec<String>)>)
    ensures
        stack_after(old(frames)@, final(frames)@, free_stmts(stmts@)),
        reads_view(final(map)@) == index_stmts(stmts@, reads_view(old(map)@)),
    decreases stmts, 0int,
{
    let ghost f0 = frames@;
    let ghost m0 = reads_view(map@);
    let mut i: usize = 0;
    proof {
        lemma_stack_refl(f0);
        assert(stmts@.take(0) =~= Seq::<Stmt>::empty());
    }
    while i < stmts.len()
        invariant
            i <= stmts@.len(),
            stack_after(f0, frames@, free_stmts(stmts@.take(i as int))),
            reads_view(map@) == index_stmts(stmts@.take(i as int), m0),
        decreases stmts.len() - i,
    {
        proof {
            assert(decreases_to!(stmts => stmts@));
            assert(decreases_to!(stmts@ => stmts@[i as int]));
        }
        let ghost fa = frames@;
        scan_stmt(&stmts[i], frames, map);
        proof {
            let t = stmts@.take(i + 1);
            assert(t.subrange(0, t.len() - 1) =~= stmts@.take(i as int));
            assert(t[t.len() - 1] == stmts@[i as int]);
            lemma_stack_trans(f0, fa, frames@, free_stmts(stmts@.take(i as int)), free_stmt(stmts@[i as int]));
        }
        i = i + 1;
    }
    assert(stmts@.take(stmts@.len() as int) =~= stmts@);
}

fn scan_defaults(params: &Vec<Param>, frames: &mut Vec<ReadFrame>, map: &mut Vec<(Span, Vec<String>)>)
    ensures
        stack_after(old(frames)@, final(frames)@, free_defaults(params@)),
        reads_view(final(map)@) == index_defaults(params@, reads_view(old(map)@)),
    decreases params, 0int,
{
    let ghost f0 = frames@;
    let ghost m0 = reads_view(map@);
    let mut i: usize = 0;
    proof {
        lemma_stack_refl(f0);
        assert(params@.take(0) =~= Seq::<Param>::empty());
    }
    while i < params.len()
        invariant
            i <= params@.len(),
            stack_after(f0, frames@, free_defaults(params@.take(i as int))),
            reads_view(map@) == index_defaults(params@.take(i as int), m0),
        decreases params.len() - i,
    {
        let ghost fa = frames@;
        match &params[i].default {
            Some(d) => {
                proof {
                    assert(decreases_to!(params => params@));
                    assert(decreases_to!(params@ => params@[i as int]));
                    assert(decreases_to!(params@[i as int] => params@[i as int].default));
                    assert(decreases_to!(params@[i as int].default => params@[i as int].default->0));
                }
                scan_expr(d, frames, map);
            },
            None => {
                proof {
                    lemma_stack_refl(fa);
                }
            },
        }
        proof {
            let t = params@.take(i + 1);
            assert(t.subrange(0, t.len() - 1) =~= params@.take(i as int));
            assert(t[t.len() - 1] == params@[i as int]);
            let c = match params@[i as int].default {
                Some(d) => free_expr(d),
                None => Set::empty(),
            };
            lemma_stack_trans(f0, fa, frames@, free_defaults(params@.take(i as int)), c);
        }
        i = i + 1;
    }
    assert(params@.take(params@.len() as int) =~= params@);
}

fn scan_args(args: &Vec<Arg>, frames: &mut Vec<ReadFrame>, map: &mut Vec<(Span, Vec<String>)>)
    ensures
        stack_after(old(frames)@, final(frames)@, free_args(args@)),
        reads_view(final(map)@) == index_args(args@, reads_view(old(map)@)),
    decreases args, 0int,
{
    let ghost f0 = frames@;
    let ghost m0 = reads_view(map@);
    let mut i: usize = 0;
    proof {
        lemma_stack_refl(f0);
        assert(args@.take(0) =~= Seq::<Arg>::empty());
    }
    while i < args.len()
        invariant
            i <= args@.len(),
            stack_after(f0, frames@, free_args(args@.take(i as int))),
            reads_view(map@) == index_args(args@.take(i as int), m0),
        decreases args.len() - i,
    {
        proof {
            assert(decreases_to!(args => args@));
            assert(decreases_to!(args@ => args@[i as int]));
            assert(decreases_to!(args@[i as int] => args@[i as int].value));
        }
        let ghost fa = frames@;
        scan_expr(&args[i].value, frames, map);
        proof {
            let t = args@.take(i + 1);
            assert(t.subrange(0, t.len() - 1) =~= args@.take(i as int));
            assert(t[t.len() - 1] == args@[i as int]);
            lemma_stack_trans(f0, fa, frames@, free_args(args@.take(i as int)), free_expr(args@[i as int].value));
        }
        i = i + 1;
    }
    assert(args@.take(args@.len() as int) =~= args@);
}

/// Scan one statement.
pub fn scan_stmt(stmt: &Stmt, frames: &mut Vec<ReadFrame>, map: &mut Vec<(Span, Vec<String>)>)
    ensures
        stack_after(old(frames)@, final(frames)@, free_stmt(*stmt)),
        reads_view(final(map)@) == index_stmt(*stmt, reads_view(old(map)@)),
    decreases stmt, 0int,
{
    let ghost f0 = frames@;
    match stmt {
        Stmt::Assign { target, value, .. } => {
            scan_target(target, frames, map);
            let ghost fa = frames@;
            scan_expr(value, frames, map);
            proof {
                lemma_stack_trans(f0, fa, frames@, free_target(*target), free_expr(*value));
            }
        },
        Stmt::Expr(e) => scan_expr(e, frames, map),
        Stmt::If { cond, then, else_, .. } => {
            scan_expr(cond, frames, map);
            let ghost fa = frames@;
            scan_stmts(then, frames, map);
            let ghost fb = frames@;
            proof {
                lemma_stack_trans(f0, fa, fb, free_expr(*cond), free_stmts(then@));
            }
            match else_ {
                Some(b) => scan_stmts(b, frames, map),
                None => {
                    proof {
                        lemma_stack_refl(fb);
                    }
                },
            }
            proof {
                let c = match else_ {
                    Some(b) => free_stmts(b@),
                    None => Set::empty(),
                };
                lemma_stack_trans(f0, fb, frames@, free_expr(*cond).union(free_stmts(then@)), c);
            }
        },
        Stmt::For { iter, body, .. } => {
            scan_expr(iter, frames, map);
            let ghost fa = frames@;
            scan_stmts(body, frames, map);
            proof {
                lemma_stack_trans(f0, fa, frames@, free_expr(*iter), free_stmts(body@));
            }
        },
        Stmt::While { cond, body, .. } => {
            scan_expr(cond, frames, map);
            let ghost fa = frames@;
            scan_stmts(body, frames, map);
            proof {
                lemma_stack_trans(f0, fa, frames@, free_expr(*cond), free_stmts(body@));
            }
        },
        Stmt::FunctionDef { params, body, span, .. } => {
            enter_frame(params, *span, frames);
            let ghost f1 = frames@;
            scan_defaults(params, frames, map);
            let ghost f2 = frames@;
            scan_stmts(body, frames, map);
            proof {
                lemma_stack_trans(f1, f2, frames@, free_defaults(params@), free_stmts(body@));
                lemma_function_frames(f0, f1, frames@, params@, free_defaults(params@).union(free_stmts(body@)));
            }
            leave_frame(frames, map);
        },
        Stmt::Return { value, .. } => match value {
            Some(v) => scan_expr(v, frames, map),
            None => {
                proof {
                    lemma_stack_refl(f0);
                }
            },
        },
    }
}

/// Scan an assignment target: a plain identifier is a write, not a read.
pub fn scan_target(expr: &Expr, frames: &mut Vec<ReadFrame>, map: &mut Vec<(Span, Vec<String>)>)
    ensures
        stack_after(old(frames)@, final(frames)@, free_target(*expr)),
        reads_view(final(map)@) == index_target(*expr, reads_view(old(map)@)),
    decreases expr, 1int,
{
    let ghost f0 = frames@;
    match expr {
        Expr::Ident { .. } => {
            proof {
                lemma_stack_refl(f0);
            }
        },
        Expr::Index { base, args, .. } => {
            scan_target(base, frames, map);
            let ghost fa = frames@;
            scan_args(args, frames, map);
            proof {
                lemma_stack_trans(f0, fa, frames@, free_target(**base), free_args(args@));
            }
        },
        _ => scan_expr(expr, frames, map),
    }
}

/// Scan an expression.
pub fn scan_expr(expr: &Expr, frames: &mut Vec<ReadFrame>, map: &mut Vec<(Span, Vec<String>)>)
    ensures
        stack_after(old(frames)@, final(frames)@, free_expr(*expr)),
        reads_view(final(map)@) == index_expr(*expr, reads_view(old(map)@)),
    decreases expr, 0int,
{
    let ghost f0 = frames@;
    match expr {
        Expr::Function { params, body, span } => {
            enter_frame(params, *span, frames);
            let ghost f1 = frames@;
            scan_defaults(params, frames, map);
            let ghost f2 = frames@;
            scan_stmts(body, frames, map);
            proof {
                lemma_stack_trans(f1, f2, frames@, free_defaults(params@), free_stmts(body@));
                lemma_function_frames(f0, f1, frames@, params@, free_defaults(params@).union(free_stmts(body@)));
            }
            leave_frame(frames, map);
        },
        Expr::Block { body, .. } => scan_stmts(body, frames, map),
        Expr::Call { func, args, .. } => {
            scan_expr(func, frames, map);
            let ghost fa = frames@;
            scan_args(args, frames, map);
            proof {
                lemma_stack_trans(f0, fa, frames@, free_expr(**func), free_args(args@));
            }
        },
        Expr::BinOp { lhs, rhs, .. } => {
            scan_expr(lhs, frames, map);
            let ghost fa = frames@;
            scan_expr(rhs, frames, map);
            proof {
                lemma_stack_trans(f0, fa, frames@, free_expr(**lhs), free_expr(**rhs));
            }
        },
        Expr::UnaryOp { expr: inner, .. } => scan_expr(inner, frames, map),
        Expr::Index { base, args, .. } => {
            scan_expr(base, frames, map);
            let ghost fa = frames@;
            scan_args(args, frames, map);
            proof {
                lemma_stack_trans(f0, fa, frames@, free_expr(**base), free_args(args@));
            }
        },
        Expr::If { cond, then, else_, .. } => {
            scan_expr(cond, frames, map);
            let ghost fa = frames@;
            scan_expr(then, frames, map);
            let ghost fb = frames@;
            proof {
                lemma_stack_trans(f0, fa, fb, free_expr(**cond), free_expr(**then));
            }
            match else_ {
                Some(b) => scan_expr(b, frames, map),
                None => {
                    proof {
                        lemma_stack_refl(fb);
                    }
                },
            }
            proof {
                let c = match else_ {
                    Some(b) => free_expr(**b),
                    None => Set::empty(),
                };
                lemma_stack_trans(f0, fb, frames@, free_expr(**cond).union(free_expr(**then)), c);
            }
        },
        Expr::Ident { name, .. } => scan_ident(name, frames),
        _ => {
            proof {
                lemma_stack_refl(f0);
            }
        },
    }
}

} // verus!
