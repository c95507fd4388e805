//! Leaving a loop: the scope after a loop joins the paths that leave it.
use vstd::prelude::*;
use crate::assigned::{bound_in_stmt, bound_in_stmts, collect_bound_stmt, name_set};
use crate::ast::{Expr, Stmt};
use crate::checker::{Checker, LoopExitFrame};
use crate::merge::{join_path, path_joined};
use crate::scope::{Scope, has_name, lookup, names_contain, names_same};
use crate::text::str_eq;
use crate::typeshed::assoc;

verus! {

/// `res` is `acc` with `incoming` joined in when `cond` holds, `acc`
/// otherwise.
pub open spec fn maybe_joined(cond: bool, acc: Option<Box<Scope>>, incoming: Scope, res: Option<Box<Scope>>) -> bool {
    if cond {
        path_joined(acc, incoming, res)
    } else {
        res == acc
    }
}

/// `res` is `acc` with the recorded `next` paths joined in, when the loop
/// can finish normally and a `next` was recorded.
pub open spec fn next_joined(finite: bool, acc: Option<Box<Scope>>, nexts: Option<Box<Scope>>, res: Option<Box<Scope>>) -> bool {
    match nexts {
        Some(nx) => maybe_joined(finite, acc, *nx, res),
        None => res == acc,
    }
}

/// The breaks, with the body's end joined in when an unmodelled effect may
/// have left the loop from it.
pub open spec fn breaks_joined(frame: LoopExitFrame, inner: Scope, e1: Option<Box<Scope>>) -> bool {
    maybe_joined(inner.effects_unknown, frame.breaks, inner, e1)
}

/// The body's end joined in, when the loop can finish normally and the
/// end is reachable.
pub open spec fn body_end_joined(always_true: bool, inner: Scope, e1: Option<Box<Scope>>, e2: Option<Box<Scope>>) -> bool {
    maybe_joined(!always_true && !inner.unreachable, e1, inner, e2)
}

/// The `next`s joined in, when the loop can finish normally.
pub open spec fn nexts_joined(always_true: bool, frame: LoopExitFrame, e2: Option<Box<Scope>>, e3: Option<Box<Scope>>) -> bool {
    next_joined(!always_true, e2, frame.nexts, e3)
}

/// The scope before the loop joined in, when the loop can finish
/// normally and may not have been entered.
pub open spec fn skip_joined(always_true: bool, entered: bool, outer: Scope, e3: Option<Box<Scope>>, exits: Option<Box<Scope>>) -> bool {
    maybe_joined(!always_true && !entered, e3, outer, exits)
}

/// The paths that leave a loop that recorded a `break` or `next`: the
/// breaks; the body's end when an unmodelled effect may have left the
/// loop from it; and, unless the loop is a literal `TRUE` loop, which can
/// leave only through `break`, the body's end when it is reachable, the
/// `next`s, and the scope before the loop when entry was not established.
pub open spec fn transfer_exits(
    frame: LoopExitFrame,
    inner: Scope,
    outer: Scope,
    always_true: bool,
    entered: bool,
    exits: Option<Box<Scope>>,
) -> bool {
    exists|e1: Option<Box<Scope>>, e2: Option<Box<Scope>>, e3: Option<Box<Scope>>|
        #![trigger breaks_joined(frame, inner, e1), body_end_joined(always_true, inner, e1, e2), nexts_joined(always_true, frame, e2, e3)]
        {
            &&& breaks_joined(frame, inner, e1)
            &&& body_end_joined(always_true, inner, e1, e2)
            &&& nexts_joined(always_true, frame, e2, e3)
            &&& skip_joined(always_true, entered, outer, e3, exits)
        }
}

/// Whether a loop recorded a `break` or a `next`.
pub open spec fn has_transfer(frame: LoopExitFrame) -> bool {
    frame.breaks is Some || frame.nexts is Some
}

/// The paths that leave a loop: those `transfer_exits` names when it
/// recorded a transfer, the body's end otherwise.
pub open spec fn loop_exits(
    frame: LoopExitFrame,
    inner: Scope,
    outer: Scope,
    always_true: bool,
    entered: bool,
    exits: Option<Box<Scope>>,
) -> bool {
    if has_transfer(frame) {
        transfer_exits(frame, inner, outer, always_true, entered, exits)
    } else {
        exits == Some(Box::new(inner))
    }
}

/// `after` is `before` with the first `m` entries of the exit's bindings
/// not yet written over it (see `exit_applied`).
pub open spec fn exit_applied_from(before: Scope, exit: Scope, m: int, after: Scope) -> bool {
    &&& forall|n: Seq<char>|
        #![trigger lookup(after, n)]
        lookup(after, n) == match assoc(exit.bindings@, n, m) {
            Some(t) => Some(t),
            None => lookup(before, n),
        }
    &&& forall|n: Seq<char>|
        #![trigger has_name(after.list_origin_bindings@, n)]
        has_name(after.list_origin_bindings@, n) == if assoc(exit.bindings@, n, m) is Some {
            has_name(exit.list_origin_bindings@, n)
        } else {
            has_name(before.list_origin_bindings@, n)
        }
    &&& names_same(before.parameters@, after.parameters@)
    &&& forall|n: Seq<char>|
        #![trigger has_name(after.default_parameters@, n)]
        has_name(after.default_parameters@, n) == (has_name(before.default_parameters@, n) && assoc(
            exit.bindings@,
            n,
            m,
        ) is None)
    &&& forall|n: Seq<char>|
        #![trigger has_name(after.narrowed_bindings@, n)]
        has_name(after.narrowed_bindings@, n) == (has_name(before.narrowed_bindings@, n) && assoc(
            exit.bindings@,
            n,
            m,
        ) is None)
    &&& forall|n: Seq<char>|
        #![trigger has_name(after.lexical_functions@, n)]
        has_name(after.lexical_functions@, n) == (has_name(before.lexical_functions@, n) && assoc(
            exit.bindings@,
            n,
            m,
        ) is None)
    &&& forall|n: Seq<char>|
        #![trigger assoc(after.function_aliases@, n, 0)]
        assoc(after.function_aliases@, n, 0) == if assoc(exit.bindings@, n, m) is Some {
            None
        } else {
            assoc(before.function_aliases@, n, 0)
        }
    &&& after.data_mask_unknown == before.data_mask_unknown
    &&& after.search_path_unknown == before.search_path_unknown
    &&& after.tidy_injection == before.tidy_injection
    &&& after.unreachable == before.unreachable
    &&& after.effects_unknown == before.effects_unknown
    &&& after.ops_environment_unknown == before.ops_environment_unknown
    &&& after.loop_frame == before.loop_frame
}

/// `after` is `before` with a loop's exit path written over it: every
/// name the exit binds takes the exit's type and list-origin fact and
/// loses its other per-binding facts; other names are untouched; the
/// exit's unknown effects and operator environments carry over.
pub open spec fn exit_applied(before: Scope, exit: Scope, after: Scope) -> bool {
    exit_applied_from(
        Scope {
            effects_unknown: before.effects_unknown || exit.effects_unknown,
            ops_environment_unknown: before.ops_environment_unknown || exit.ops_environment_unknown,
            ..before
        },
        exit,
        0,
        Scope { unreachable: before.unreachable, ..after },
    )
}

/// The scope before a loop with the body's unknown effects and operator
/// environments added.
pub open spec fn loop_outer(before: Scope, inner: Scope) -> Scope {
    Scope {
        ops_environment_unknown: before.ops_environment_unknown || inner.ops_environment_unknown,
        effects_unknown: before.effects_unknown || inner.effects_unknown,
        ..before
    }
}

/// The scope after a loop: the body's unknown effects and operator
/// environments reach it; the exit paths are written over it; and a
/// literal `TRUE` loop that no path leaves makes what follows unreachable.
pub open spec fn loop_finished(
    frame: LoopExitFrame,
    before: Scope,
    inner: Scope,
    always_true: bool,
    entered: bool,
    after: Scope,
) -> bool {
    exists|exits: Option<Box<Scope>>|
        #![trigger loop_exits(frame, inner, loop_outer(before, inner), always_true, entered, exits)]
        {
            &&& loop_exits(frame, inner, loop_outer(before, inner), always_true, entered, exits)
            &&& match exits {
                Some(e) => exit_applied(loop_outer(before, inner), *e, after),
                None => after == Scope { unreachable: after.unreachable, ..loop_outer(before, inner) },
            }
            &&& after.unreachable == (before.unreachable || (always_true && !(exits is Some && !(
            always_true && !has_transfer(frame) && inner.unreachable))))
        }
}

/// Write an exit path's bindings over `scope`.
fn apply_exit(scope: &mut Scope, exit: Scope)
    ensures
        exit_applied(*old(scope), exit, *final(scope)),
        final(scope).unreachable == old(scope).unreachable,
{
    let ghost e = exit;
    scope.ops_environment_unknown = scope.ops_environment_unknown || exit.ops_environment_unknown;
    scope.effects_unknown = scope.effects_unknown || exit.effects_unknown;
    let ghost start = *scope;
    let Scope { bindings, list_origin_bindings, .. } = exit;
    let mut rest = bindings;
    // Last entry first, so the entry that looks up wins.
    while rest.len() > 0
        invariant
            rest@ == e.bindings@.take(rest@.len() as int),
            rest@.len() <= e.bindings@.len(),
            list_origin_bindings == e.list_origin_bindings,
            exit_applied_from(start, e, rest@.len() as int, *scope),
        decreases rest.len(),
    {
        let ghost m = rest@.len() as int;
        let ghost before = *scope;
        let (name, ty) = rest.pop().unwrap();
        proof {
            assert(e.bindings@[m - 1] == (name, ty));
        }
        let list_origin = names_contain(&list_origin_bindings, name.as_str());
        scope.insert(name.as_str(), ty);
        let ghost mid = *scope;
        if list_origin {
            scope.mark_list_origin(name.as_str());
        }
        proof {
            assert(rest@ =~= e.bindings@.take(m - 1));
            assert forall|n: Seq<char>|
                #![trigger assoc(e.bindings@, n, m - 1)]
                assoc(e.bindings@, n, m - 1) == if n == name@ {
                    Some(ty)
                } else {
                    assoc(e.bindings@, n, m)
                } by {}
            assert forall|n: Seq<char>| #![trigger lookup(*scope, n)]
                lookup(*scope, n) == match assoc(e.bindings@, n, m - 1) {
                    Some(t) => Some(t),
                    None => lookup(start, n),
                } by {
                assert(lookup(mid, n) == if n == name@ { Some(ty) } else { lookup(before, n) });
                assert(lookup(*scope, n) == lookup(mid, n));
            }
            assert forall|n: Seq<char>| #![trigger has_name(scope.list_origin_bindings@, n)]
                has_name(scope.list_origin_bindings@, n) == if assoc(e.bindings@, n, m - 1) is Some {
                    has_name(e.list_origin_bindings@, n)
                } else {
                    has_name(start.list_origin_bindings@, n)
                } by {
                assert(assoc(e.bindings@, n, m - 1) == if n == name@ { Some(ty) } else { assoc(e.bindings@, n, m) });
            }
            assert forall|n: Seq<char>| #![trigger assoc(scope.function_aliases@, n, 0)]
                assoc(scope.function_aliases@, n, 0) == if assoc(e.bindings@, n, m - 1) is Some {
                    None
                } else {
                    assoc(start.function_aliases@, n, 0)
                } by {
                assert(assoc(e.bindings@, n, m - 1) == if n == name@ { Some(ty) } else { assoc(e.bindings@, n, m) });
            }
            assert forall|n: Seq<char>| #![trigger has_name(scope.default_parameters@, n)]
                has_name(scope.default_parameters@, n) == (has_name(start.default_parameters@, n)
                    && assoc(e.bindings@, n, m - 1) is None) by {
                assert(assoc(e.bindings@, n, m - 1) == if n == name@ { Some(ty) } else { assoc(e.bindings@, n, m) });
            }
            assert forall|n: Seq<char>| #![trigger has_name(scope.narrowed_bindings@, n)]
                has_name(scope.narrowed_bindings@, n) == (has_name(start.narrowed_bindings@, n)
                    && assoc(e.bindings@, n, m - 1) is None) by {
                assert(assoc(e.bindings@, n, m - 1) == if n == name@ { Some(ty) } else { assoc(e.bindings@, n, m) });
            }
            assert forall|n: Seq<char>| #![trigger has_name(scope.lexical_functions@, n)]
                has_name(scope.lexical_functions@, n) == (has_name(start.lexical_functions@, n)
                    && assoc(e.bindings@, n, m - 1) is None) by {
                assert(assoc(e.bindings@, n, m - 1) == if n == name@ { Some(ty) } else { assoc(e.bindings@, n, m) });
            }
        }
    }
}

impl Checker {
    /// Leave the innermost loop: pop its exit frame and write the paths
    /// that leave it over `scope`. `inner` is the body's scope at its end;
    /// `always_true` marks a literal `TRUE` loop; `entered` that the body
    /// is known to run at least once.
    pub fn finish_loop(&mut self, scope: &mut Scope, inner: Scope, always_true: bool, entered: bool)
        requires
            old(self).loop_frames@.len() > 0,
        ensures
            final(self).loop_frames@ == old(self).loop_frames@.drop_last(),
            final(self).diagnostics == old(self).diagnostics,
            final(self).discarding == old(self).discarding,
            final(self).source == old(self).source,
            final(self).validate_user_call_arguments == old(self).validate_user_call_arguments,
            final(self).fn_table == old(self).fn_table,
            final(self).enclosing_formals == old(self).enclosing_formals,
            final(self).formal_reads == old(self).formal_reads,
            final(self).trusted_defusers == old(self).trusted_defusers,
            loop_finished(old(self).loop_frames@.last(), *old(scope), inner, always_true, entered, *final(scope)),
    {
        let ghost frame0 = self.loop_frames@.last();
        let frame = self.loop_frames.pop().unwrap();
        let LoopExitFrame { breaks, nexts } = frame;
        let transfer = breaks.is_some() || nexts.is_some();
        let body_unreachable = inner.unreachable;
        scope.ops_environment_unknown = scope.ops_environment_unknown || inner.ops_environment_unknown;
        scope.effects_unknown = scope.effects_unknown || inner.effects_unknown;
        let ghost outer = *scope;
        assert(outer == loop_outer(*old(scope), inner));
        let mut exits = breaks;
        let ghost e0 = exits;
        if transfer && inner.effects_unknown {
            join_path(&mut exits, &inner);
        }
        let ghost e1 = exits;
        if transfer && !always_true && !inner.unreachable {
            join_path(&mut exits, &inner);
        }
        let ghost e2 = exits;
        if transfer && !always_true {
            if let Some(next) = &nexts {
                join_path(&mut exits, next);
            }
        }
        let ghost e3 = exits;
        if transfer && !always_true && !entered {
            join_path(&mut exits, scope);
        }
        let ghost e4 = exits;
        let exits = if transfer {
            exits
        } else {
            Some(Box::new(inner))
        };
        proof {
            if transfer {
                assert(breaks_joined(frame0, inner, e1));
                assert(body_end_joined(always_true, inner, e1, e2));
                assert(nexts_joined(always_true, frame0, e2, e3));
                assert(skip_joined(always_true, entered, outer, e3, e4));
                assert(transfer_exits(frame0, inner, outer, always_true, entered, exits));
            }
            assert(loop_exits(frame0, inner, outer, always_true, entered, exits));
        }
        let ghost ex = exits;
        let reaches = exits.is_some() && !(always_true && !transfer && body_unreachable);
        match exits {
            Some(exit) => apply_exit(scope, *exit),
            None => {},
        }
        let ghost applied = *scope;
        if always_true && !reaches {
            scope.unreachable = true;
        }
        proof {
            match ex {
                Some(e) => {
                    assert(exit_applied(outer, *e, applied));
                    assert(Scope { unreachable: outer.unreachable, ..applied } == Scope {
                        unreachable: outer.unreachable,
                        ..*scope
                    });
                    assert(exit_applied(outer, *e, *scope));
                },
                None => {
                    assert(*scope == Scope { unreachable: scope.unreachable, ..outer });
                },
            }
            assert(loop_exits(frame0, inner, outer, always_true, entered, ex));
            assert(transfer == has_transfer(frame0));
            assert(scope.unreachable == (old(scope).unreachable || (always_true && !(ex is Some && !(
            always_true && !has_transfer(frame0) && inner.unreachable)))));
            assert(loop_finished(frame0, *old(scope), inner, always_true, entered, *scope));
        }
    }
}

/// What the checker found about the loop-transfer keywords in the current
/// scope: whether `break`, and whether `next`, may be rebound there (as a
/// plain or a backquoted binding).
#[derive(Clone, Copy, PartialEq, Eq, Debug, Structural)]
pub struct TransferShadowing {
    pub break_shadowed: bool,
    pub next_shadowed: bool,
}

/// Whether the keyword `name` may be rebound.
pub open spec fn shadowed_for(name: Seq<char>, sh: TransferShadowing) -> bool {
    if name == "break"@ {
        sh.break_shadowed
    } else {
        sh.next_shadowed
    }
}

/// Whether `name` is a loop transfer the checker can follow: `break` or
/// `next`, not rebound, in a scope without unmodelled effects.
pub open spec fn unmasked_spec(name: Seq<char>, scope: Scope, sh: TransferShadowing) -> bool {
    (name == "break"@ || name == "next"@) && !scope.effects_unknown && !shadowed_for(name, sh)
}

/// Whether a statement certainly ends the loop iteration: a followable
/// transfer, a braced block holding one, or an `if` both of whose
/// branches hold one.
pub open spec fn ends_spec(s: Stmt, scope: Scope, sh: TransferShadowing) -> bool
    decreases s, 0int,
{
    match s {
        Stmt::Expr(e) => match e {
            Expr::Ident { name, .. } => unmasked_spec(name@, scope, sh),
            Expr::Block { body, .. } => any_ends(body@, 0, scope, sh),
            _ => false,
        },
        Stmt::If { then, else_, .. } => match else_ {
            Some(other) => any_ends(then@, 0, scope, sh) && any_ends(other@, 0, scope, sh),
            None => false,
        },
        _ => false,
    }
}

/// Whether some statement of `ss[i..]` ends the loop iteration.
pub open spec fn any_ends(ss: Seq<Stmt>, i: int, scope: Scope, sh: TransferShadowing) -> bool
    decreases ss, ss.len() - i,
{
    if i < 0 || i >= ss.len() {
        false
    } else {
        ends_spec(ss[i], scope, sh) || any_ends(ss, i + 1, scope, sh)
    }
}

/// The first statement of `ss[i..]` that ends the loop iteration.
pub open spec fn first_end(ss: Seq<Stmt>, i: int, scope: Scope, sh: TransferShadowing) -> Option<int>
    decreases ss.len() - i,
{
    if i < 0 || i >= ss.len() {
        None
    } else if ends_spec(ss[i], scope, sh) {
        Some(i)
    } else {
        first_end(ss, i + 1, scope, sh)
    }
}

/// The names a loop body can assign before an iteration ends: every
/// binding of the statements before the first one that ends it, and that
/// statement's own -- for a braced block, only those reachable in it.
pub open spec fn reachable_spec(body: Seq<Stmt>, scope: Scope, sh: TransferShadowing) -> Set<Seq<char>>
    decreases body,
{
    match first_end(body, 0, scope, sh) {
        None => bound_in_stmts(body),
        Some(e) => bound_in_stmts(body.take(e)).union(
            if 0 <= e < body.len() {
                match body[e] {
                    Stmt::Expr(Expr::Block { body: b, .. }) => reachable_spec(b@, scope, sh),
                    s => bound_in_stmt(s),
                }
            } else {
                Set::empty()
            },
        ),
    }
}

/// `b` is `a` with the transfer recorded: the scope joined into the
/// `break` or `next` paths of loop frame `i`, the other frames unchanged.
pub open spec fn transfer_recorded(a: Checker, b: Checker, name: Seq<char>, scope: Scope, i: int) -> bool {
    &&& b.loop_frames@.len() == a.loop_frames@.len()
    &&& forall|k: int| 0 <= k < a.loop_frames@.len() && k != i ==> #[trigger] b.loop_frames@[k] == a.loop_frames@[k]
    &&& if name == "break"@ {
        &&& path_joined(a.loop_frames@[i].breaks, scope, b.loop_frames@[i].breaks)
        &&& b.loop_frames@[i].nexts == a.loop_frames@[i].nexts
    } else {
        &&& path_joined(a.loop_frames@[i].nexts, scope, b.loop_frames@[i].nexts)
        &&& b.loop_frames@[i].breaks == a.loop_frames@[i].breaks
    }
    &&& b.diagnostics == a.diagnostics
    &&& b.discarding == a.discarding
    &&& b.source == a.source
    &&& b.validate_user_call_arguments == a.validate_user_call_arguments
    &&& b.fn_table == a.fn_table
    &&& b.enclosing_formals == a.enclosing_formals
    &&& b.formal_reads == a.formal_reads
    &&& b.trusted_defusers == a.trusted_defusers
}

/// The names of a prefix one element longer.
proof fn lemma_name_set_take_succ(v: Seq<String>, k: int)
    requires
        0 <= k < v.len(),
    ensures
        name_set(v.take(k + 1)) == name_set(v.take(k)).insert(v[k]@),
{
    assert forall|n: Seq<char>| #[trigger] name_set(v.take(k + 1)).contains(n) == name_set(v.take(k)).insert(v[k]@).contains(n) by {
        if has_name(v.take(k + 1), n) {
            let j = choose|j: int| 0 <= j < v.take(k + 1).len() && #[trigger] v.take(k + 1)[j]@ == n;
            if j < k {
                assert(v.take(k)[j] == v.take(k + 1)[j]);
            }
        }
        if has_name(v.take(k), n) {
            let j = choose|j: int| 0 <= j < v.take(k).len() && #[trigger] v.take(k)[j]@ == n;
            assert(v.take(k + 1)[j] == v.take(k)[j]);
        }
        if n == v[k]@ {
            assert(v.take(k + 1)[k]@ == n);
        }
    }
    assert(name_set(v.take(k + 1)) =~= name_set(v.take(k)).insert(v[k]@));
}

/// Add every name of `more` to `names`.
fn extend_names(names: &mut Vec<String>, more: &Vec<String>)
    ensures
        name_set(final(names)@) == name_set(old(names)@).union(name_set(more@)),
{
    let ghost start = names@;
    let mut k: usize = 0;
    assert(name_set(more@.take(0)) =~= Set::<Seq<char>>::empty()) by {
        assert forall|n: Seq<char>| !name_set(more@.take(0)).contains(n) by {
            if has_name(more@.take(0), n) {
                let j = choose|j: int| 0 <= j < more@.take(0).len() && #[trigger] more@.take(0)[j]@ == n;
            }
        }
    }
    assert(name_set(names@) =~= name_set(start).union(name_set(more@.take(0))));
    while k < more.len()
        invariant
            k <= more@.len(),
            name_set(names@) == name_set(start).union(name_set(more@.take(k as int))),
        decreases more.len() - k,
    {
        let ghost mid = names@;
        crate::scope::add_name(names, more[k].as_str());
        proof {
            lemma_name_set_take_succ(more@, k as int);
            assert forall|n: Seq<char>| #[trigger] name_set(names@).contains(n) == name_set(mid).insert(more@[k as int]@).contains(n) by {
                assert(has_name(names@, n) == (has_name(mid, n) || n == more@[k as int]@));
            }
            assert(name_set(names@) =~= name_set(start).union(name_set(more@.take(k + 1))));
        }
        k = k + 1;
    }
    assert(more@.take(more@.len() as int) =~= more@);
}

impl Checker {
    /// Whether `name` is a loop transfer the checker can follow (see
    /// `unmasked_spec`); `shadowing` is what the checker found about the
    /// keywords' bindings.
    pub fn unmasked_loop_transfer(&self, name: &str, scope: &Scope, shadowing: TransferShadowing) -> (r: bool)
        ensures
            r == unmasked_spec(name@, *scope, shadowing),
    {
        proof {
            reveal_strlit("break");
            reveal_strlit("next");
        }
        let is_break = str_eq(name, "break");
        let is_next = str_eq(name, "next");
        if !(is_break || is_next) || scope.effects_unknown {
            return false;
        }
        if is_break {
            !shadowing.break_shadowed
        } else {
            !shadowing.next_shadowed
        }
    }

    fn any_ends_iteration(&self, body: &Vec<Stmt>, scope: &Scope, shadowing: TransferShadowing) -> (r: bool)
        ensures
            r == any_ends(body@, 0, *scope, shadowing),
        decreases body, 1int,
    {
        let mut i: usize = 0;
        while i < body.len()
            invariant
                i <= body@.len(),
                any_ends(body@, 0, *scope, shadowing) == any_ends(body@, i as int, *scope, shadowing),
            decreases body.len() - i,
        {
            proof {
                assert(decreases_to!(body => body@));
                assert(decreases_to!(body@ => body@[i as int]));
            }
            if self.ends_loop_iteration(&body[i], scope, shadowing) {
                return true;
            }
            i = i + 1;
        }
        false
    }

    /// Whether a statement certainly ends the loop iteration (see
    /// `ends_spec`).
    pub fn ends_loop_iteration(&self, statement: &Stmt, scope: &Scope, shadowing: TransferShadowing) -> (r: bool)
        ensures
            r == ends_spec(*statement, *scope, shadowing),
        decreases statement, 0int,
    {
        match statement {
            Stmt::Expr(Expr::Ident { name, .. }) => self.unmasked_loop_transfer(name.as_str(), scope, shadowing),
            Stmt::Expr(Expr::Block { body, .. }) => self.any_ends_iteration(body, scope, shadowing),
            Stmt::If { then, else_: Some(other), .. } => {
                self.any_ends_iteration(then, scope, shadowing) && self.any_ends_iteration(other, scope, shadowing)
            },
            _ => false,
        }
    }

    /// The names a loop body can assign before an iteration ends (see
    /// `reachable_spec`).
    pub fn reachable_loop_assignments(&self, body: &Vec<Stmt>, scope: &Scope, shadowing: TransferShadowing) -> (r: Vec<String>)
        ensures
            name_set(r@) == reachable_spec(body@, *scope, shadowing),
        decreases body,
    {
        let mut end: usize = 0;
        while end < body.len()
            invariant
                end <= body@.len(),
                first_end(body@, 0, *scope, shadowing) == first_end(body@, end as int, *scope, shadowing),
            ensures
                end <= body@.len(),
                first_end(body@, 0, *scope, shadowing) == first_end(body@, end as int, *scope, shadowing),
                end < body@.len() ==> ends_spec(body@[end as int], *scope, shadowing),
            decreases body.len() - end,
        {
            if self.ends_loop_iteration(&body[end], scope, shadowing) {
                break;
            }
            end = end + 1;
        }
        let mut names: Vec<String> = Vec::new();
        let mut i: usize = 0;
        assert(name_set(names@) =~= bound_in_stmts(body@.take(0)));
        while i < end
            invariant
                i <= end <= body@.len(),
                name_set(names@) == bound_in_stmts(body@.take(i as int)),
            decreases end - i,
        {
            let ghost before = names@;
            collect_bound_stmt(&body[i], &mut names);
            proof {
                let t = body@.take(i + 1);
                assert(t.subrange(0, t.len() - 1) =~= body@.take(i as int));
                assert(t[t.len() - 1] == body@[i as int]);
            }
            i = i + 1;
        }
        if end == body.len() {
            assert(body@.take(end as int) =~= body@);
            return names;
        }
        let ghost prefix = names@;
        match &body[end] {
            Stmt::Expr(Expr::Block { body: inner, .. }) => {
                proof {
                    assert(decreases_to!(body => body@));
                    assert(decreases_to!(body@ => body@[end as int]));
                }
                let nested = self.reachable_loop_assignments(inner, scope, shadowing);
                extend_names(&mut names, &nested);
            },
            statement => {
                collect_bound_stmt(statement, &mut names);
            },
        }
        names
    }

    /// Record a `break` or `next` the checker can follow: the scope at the
    /// transfer joins the innermost loop's paths for that transfer, and
    /// what follows it in the body is unreachable. Returns whether it was
    /// recorded; an unfollowable transfer, or one outside every loop,
    /// changes nothing.
    pub fn record_loop_transfer(&mut self, name: &str, scope: &mut Scope, shadowing: TransferShadowing) -> (r: bool)
        requires
            unmasked_spec(name@, *old(scope), shadowing) ==> match old(scope).loop_frame {
                Some(i) => i < old(self).loop_frames@.len(),
                None => true,
            },
        ensures
            r == (unmasked_spec(name@, *old(scope), shadowing) && old(scope).loop_frame is Some),
            r ==> transfer_recorded(*old(self), *final(self), name@, *old(scope), old(scope).loop_frame->0 as int),
            r ==> *final(scope) == (Scope { unreachable: true, ..*old(scope) }),
            !r ==> *final(self) == *old(self) && *final(scope) == *old(scope),
    {
        if !self.unmasked_loop_transfer(name, scope, shadowing) {
            return false;
        }
        let index = match scope.loop_frame {
            Some(i) => i,
            None => return false,
        };
        proof {
            reveal_strlit("break");
        }
        let ghost before = self.loop_frames@;
        let mut frame = LoopExitFrame { breaks: None, nexts: None };
        std::mem::swap(&mut frame, &mut self.loop_frames[index]);
        if str_eq(name, "break") {
            join_path(&mut frame.breaks, scope);
        } else {
            join_path(&mut frame.nexts, scope);
        }
        std::mem::swap(&mut frame, &mut self.loop_frames[index]);
        scope.unreachable = true;
        true
    }
}

} // verus!
