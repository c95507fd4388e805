//! Joining the scopes of alternative control-flow paths.
use vstd::prelude::*;
use crate::scope::{
    Scope, find_entry, has_name, lemma_assoc_absent, lemma_assoc_first, lookup, names_contain,
    scope_eq,
};
use crate::typeshed::assoc;
use crate::types::{RType, copy_type, is_unknown_type, join_of, ty_eq};

verus! {

/// `r` joins `a` with a structural copy of `b`.
pub open spec fn joined_with_copy(a: RType, b: RType, r: RType) -> bool {
    exists|b2: RType| #[trigger] ty_eq(b2, b) && join_of(a, b2, r)
}

/// An entry of a joined path: the same name, bound to the join of its old
/// type with the incoming path's type, or opaque when the incoming path
/// does not bind the name.
pub open spec fn path_entry(incoming: Scope, old: (String, RType), new: (String, RType)) -> bool {
    &&& new.0 == old.0
    &&& match lookup(incoming, old.0@) {
        Some(b) => joined_with_copy(old.1, b, new.1),
        None => is_unknown_type(new.1),
    }
}

/// Entry lists related entry by entry by `path_entry` look up alike.
pub proof fn lemma_assoc_path(s: Seq<(String, RType)>, t: Seq<(String, RType)>, incoming: Scope, key: Seq<char>, from: int)
    requires
        s.len() == t.len(),
        0 <= from <= s.len(),
        forall|i: int| 0 <= i < s.len() ==> #[trigger] path_entry(incoming, s[i], t[i]),
    ensures
        match (assoc(s, key, from), assoc(t, key, from)) {
            (None, None) => true,
            (Some(a), Some(r)) => match lookup(incoming, key) {
                Some(b) => joined_with_copy(a, b, r),
                None => is_unknown_type(r),
            },
            _ => false,
        },
    decreases s.len() - from,
{
    if from < s.len() {
        assert(path_entry(incoming, s[from], t[from]));
        lemma_assoc_path(s, t, incoming, key, from + 1);
    }
}

/// The bindings of joined paths: names bound on both paths join their
/// types; names bound on one path only become opaque.
pub open spec fn joined_bindings(a: Scope, incoming: Scope, b: Scope) -> bool {
    forall|n: Seq<char>|
        #![trigger lookup(b, n)]
        match (lookup(a, n), lookup(incoming, n)) {
            (Some(x), Some(y)) => lookup(b, n) matches Some(r) && joined_with_copy(x, y, r),
            (Some(_), None) => lookup(b, n) matches Some(r) && is_unknown_type(r),
            (None, Some(_)) => lookup(b, n) matches Some(r) && is_unknown_type(r),
            (None, None) => lookup(b, n) is None,
        }
}

/// `b` is the accumulated path `a` joined with `incoming`: bindings join
/// name by name, a list-origin fact survives only where both paths have
/// it, unknown effects and operator environments carry over, and every
/// other fact is the accumulated path's.
pub open spec fn joined_scope(a: Scope, incoming: Scope, b: Scope) -> bool {
    &&& joined_bindings(a, incoming, b)
    &&& forall|n: Seq<char>|
        #![trigger has_name(b.list_origin_bindings@, n)]
        has_name(b.list_origin_bindings@, n) == (has_name(a.list_origin_bindings@, n)
            && has_name(incoming.list_origin_bindings@, n))
    &&& b.ops_environment_unknown == (a.ops_environment_unknown || incoming.ops_environment_unknown)
    &&& b.effects_unknown == (a.effects_unknown || incoming.effects_unknown)
    &&& b.parameters == a.parameters
    &&& b.default_parameters == a.default_parameters
    &&& b.narrowed_bindings == a.narrowed_bindings
    &&& b.function_aliases == a.function_aliases
    &&& b.lexical_functions == a.lexical_functions
    &&& b.data_mask_unknown == a.data_mask_unknown
    &&& b.search_path_unknown == a.search_path_unknown
    &&& b.tidy_injection == a.tidy_injection
    &&& b.unreachable == a.unreachable
    &&& b.loop_frame == a.loop_frame
}

/// `res` is the accumulated paths `acc` with `incoming` added: a copy of
/// it when it is the first, its join with the others otherwise.
pub open spec fn path_joined(acc: Option<Box<Scope>>, incoming: Scope, res: Option<Box<Scope>>) -> bool {
    match acc {
        None => res matches Some(s) && scope_eq(incoming, *s),
        Some(a) => res matches Some(b) && joined_scope(*a, incoming, *b),
    }
}

/// Accumulate one more path into `paths`: the first path is copied; a
/// later path is joined into the accumulated one binding by binding, keeps
/// a list-origin fact only where both paths have it, and carries over
/// unknown effects and operator environments.
pub fn join_path(paths: &mut Option<Box<Scope>>, incoming: &Scope)
    ensures
        path_joined(*old(paths), *incoming, *final(paths)),
{
    let taken = paths.take();
    let joined = match taken {
        None => {
            *paths = Some(Box::new(crate::scope::copy_scope(incoming)));
            return;
        },
        Some(b) => b,
    };
    let a = *joined;
    let ghost a0 = a;
    let Scope {
        bindings,
        parameters,
        default_parameters,
        narrowed_bindings,
        list_origin_bindings,
        function_aliases,
        lexical_functions,
        data_mask_unknown,
        search_path_unknown,
        tidy_injection,
        unreachable,
        effects_unknown,
        ops_environment_unknown,
        loop_frame,
    } = a;
    // Transform every entry, last first, then restore the order.
    let ghost b0 = bindings@;
    let mut rest = bindings;
    let mut rev: Vec<(String, RType)> = Vec::new();
    while rest.len() > 0
        invariant
            rest@.len() + rev@.len() == b0.len(),
            rest@ == b0.take(rest@.len() as int),
            forall|k: int|
                0 <= k < rev@.len() ==> #[trigger] path_entry(*incoming, b0[b0.len() - 1 - k], rev@[k]),
        decreases rest.len(),
    {
        let (name, ty) = rest.pop().unwrap();
        let ghost old_entry = (name, ty);
        let new_ty = match incoming.get(name.as_str()) {
            Some(other) => {
                let copied = copy_type(other);
                let r = ty.join(copied);
                r
            },
            None => RType::unknown(),
        };
        let ghost k = rev@.len();
        rev.push((name, new_ty));
        proof {
            assert(b0[b0.len() - 1 - k] == old_entry);
            assert(path_entry(*incoming, old_entry, rev@[k as int]));
        }
    }
    let mut out: Vec<(String, RType)> = Vec::new();
    while rev.len() > 0
        invariant
            out@.len() + rev@.len() == b0.len(),
            forall|k: int|
                0 <= k < rev@.len() ==> #[trigger] path_entry(*incoming, b0[b0.len() - 1 - k], rev@[k]),
            forall|i: int| 0 <= i < out@.len() ==> #[trigger] path_entry(*incoming, b0[i], out@[i]),
        decreases rev.len(),
    {
        let ghost k = rev@.len() - 1;
        let e = rev.pop().unwrap();
        proof {
            assert(path_entry(*incoming, b0[b0.len() - 1 - k], e));
        }
        out.push(e);
    }
    let ghost out0 = out@;
    proof {
        assert forall|n: Seq<char>| #![trigger assoc(out0, n, 0)]
            match (assoc(b0, n, 0), assoc(out0, n, 0)) {
                (None, None) => true,
                (Some(x), Some(r)) => match lookup(*incoming, n) {
                    Some(y) => joined_with_copy(x, y, r),
                    None => is_unknown_type(r),
                },
                _ => false,
            } by {
            lemma_assoc_path(b0, out0, *incoming, n, 0);
        }
    }
    // Names only the incoming path binds become opaque.
    let ghost inc = incoming.bindings@;
    let mut i: usize = 0;
    while i < incoming.bindings.len()
        invariant
            i <= inc.len(),
            inc == incoming.bindings@,
            forall|n: Seq<char>|
                #![trigger assoc(out@, n, 0)]
                match assoc(out0, n, 0) {
                    Some(v) => assoc(out@, n, 0) == Some(v),
                    None => if assoc(inc.take(i as int), n, 0) is Some {
                        assoc(out@, n, 0) matches Some(r) && is_unknown_type(r)
                    } else {
                        assoc(out@, n, 0) is None
                    },
                },
        decreases incoming.bindings.len() - i,
    {
        let ghost before = out@;
        let name = &incoming.bindings[i].0;
        proof {
            assert(inc.take(i + 1) == inc.take(i as int).push(inc[i as int]));
            assert forall|n: Seq<char>| #![trigger assoc(inc.take(i + 1), n, 0)]
                (assoc(inc.take(i + 1), n, 0) is Some) == (assoc(inc.take(i as int), n, 0) is Some || n == name@) by {
                crate::scope::lemma_assoc_push(inc.take(i as int), inc[i as int], n, 0);
            }
        }
        match find_entry(&out, name.as_str()) {
            None => {
                let u = RType::unknown();
                let nm = name.clone();
                let ghost e = (nm, u);
                let ghost ug = u;
                out.push((nm, u));
                proof {
                    lemma_assoc_absent(before, name@, 0);
                    assert forall|n: Seq<char>| #![trigger assoc(out@, n, 0)]
                        assoc(out@, n, 0) == if n == name@ { Some(ug) } else { assoc(before, n, 0) } by {
                        crate::scope::lemma_assoc_push(before, e, n, 0);
                    }
                }
            },
            Some(k) => {
                proof {
                    lemma_assoc_key_present(out@, name@, k as int, 0);
                }
            },
        }
        i = i + 1;
    }
    proof {
        assert(inc.take(inc.len() as int) =~= inc);
    }
    // A list-origin fact survives only when both paths have it.
    let ghost lob = list_origin_bindings@;
    let mut kept: Vec<String> = Vec::new();
    let mut j: usize = 0;
    while j < list_origin_bindings.len()
        invariant
            j <= lob.len(),
            lob == list_origin_bindings@,
            forall|n: Seq<char>|
                #![trigger has_name(kept@, n)]
                has_name(kept@, n) == (has_name(lob.take(j as int), n) && has_name(incoming.list_origin_bindings@, n)),
        decreases list_origin_bindings.len() - j,
    {
        let ghost before = kept@;
        let name = &list_origin_bindings[j];
        if incoming.has_list_origin(name.as_str()) {
            crate::scope::add_name(&mut kept, name.as_str());
        }
        proof {
            let t = lob.take(j + 1);
            assert forall|n: Seq<char>| has_name(t, n) == (has_name(lob.take(j as int), n) || n == name@) by {
                if has_name(t, n) {
                    let k = choose|k: int| 0 <= k < t.len() && #[trigger] t[k]@ == n;
                    if k < j {
                        assert(lob.take(j as int)[k] == t[k]);
                    }
                }
                if has_name(lob.take(j as int), n) {
                    let k = choose|k: int| 0 <= k < j && #[trigger] lob.take(j as int)[k]@ == n;
                    assert(t[k] == lob.take(j as int)[k]);
                }
                if n == name@ {
                    assert(t[j as int]@ == n);
                }
            }
        }
        j = j + 1;
    }
    proof {
        assert(lob.take(lob.len() as int) =~= lob);
    }
    let result = Scope {
        bindings: out,
        parameters,
        default_parameters,
        narrowed_bindings,
        list_origin_bindings: kept,
        function_aliases,
        lexical_functions,
        data_mask_unknown,
        search_path_unknown,
        tidy_injection,
        unreachable,
        effects_unknown: effects_unknown || incoming.effects_unknown,
        ops_environment_unknown: ops_environment_unknown || incoming.ops_environment_unknown,
        loop_frame,
    };
    *paths = Some(Box::new(result));
}

/// A key some entry holds looks up as present.
pub proof fn lemma_assoc_key_present<V>(s: Seq<(String, V)>, key: Seq<char>, k: int, from: int)
    requires
        0 <= from <= k < s.len(),
        s[k].0@ == key,
    ensures
        assoc(s, key, from) is Some,
    decreases k - from,
{
    if s[from].0@ != key {
        lemma_assoc_key_present(s, key, k, from + 1);
    }
}

/// A key that looks up to a value has a first entry holding it.
pub proof fn lemma_assoc_some_first<V>(s: Seq<(String, V)>, key: Seq<char>, from: int)
    requires
        0 <= from,
        assoc(s, key, from) is Some,
    ensures
        exists|i: int|
            from <= i < s.len() && (#[trigger] s[i]).0@ == key && s[i].1 == assoc(s, key, from)->0
                && forall|j: int| from <= j < i ==> (#[trigger] s[j]).0@ != key,
    decreases s.len() - from,
{
    if s[from].0@ != key {
        lemma_assoc_some_first(s, key, from + 1);
        let i = choose|i: int|
            from + 1 <= i < s.len() && (#[trigger] s[i]).0@ == key && s[i].1 == assoc(s, key, from + 1)->0
                && forall|j: int| from + 1 <= j < i ==> (#[trigger] s[j]).0@ != key;
        assert(forall|j: int| from <= j < i ==> (#[trigger] s[j]).0@ != key);
    } else {
        assert(s[from].1 == assoc(s, key, from)->0);
    }
}


/// Whether entry `i` is the first entry for its key.
pub open spec fn first_entry<V>(s: Seq<(String, V)>, i: int) -> bool {
    forall|j: int| 0 <= j < i ==> (#[trigger] s[j]).0@ != s[i].0@
}

/// Which entries of an association list are the first for their key.
fn first_flags<V>(entries: &Vec<(String, V)>) -> (r: Vec<bool>)
    ensures
        r@.len() == entries@.len(),
        forall|i: int| 0 <= i < entries@.len() ==> #[trigger] r@[i] == first_entry(entries@, i),
{
    let mut flags: Vec<bool> = Vec::new();
    let mut i: usize = 0;
    while i < entries.len()
        invariant
            i <= entries@.len(),
            flags@.len() == i,
            forall|k: int| 0 <= k < i ==> #[trigger] flags@[k] == first_entry(entries@, k),
        decreases entries.len() - i,
    {
        let found = find_entry(entries, entries[i].0.as_str());
        let first = match found {
            Some(k) => k == i,
            None => false,
        };
        proof {
            match found {
                Some(k) => {
                    if k > i {
                        assert(entries@[i as int].0@ != entries@[i as int].0@);
                    } else if k < i {
                        assert(entries@[k as int].0@ == entries@[i as int].0@);
                    }
                },
                None => {
                    assert(entries@[i as int].0@ != entries@[i as int].0@);
                },
            }
        }
        flags.push(first);
        i = i + 1;
    }
    flags
}

/// The branch binding of `n` a merge folds back: the branch's type, unless
/// it is only the branch's own narrowing refinement of a name the parent
/// binds, or it is structurally the parent's type.
pub open spec fn branch_change(parent: Scope, branch: Scope, narrowed: Seq<String>, n: Seq<char>) -> Option<RType> {
    match lookup(branch, n) {
        None => None,
        Some(t) => if (has_name(narrowed, n) && lookup(parent, n) is Some && has_name(
            branch.narrowed_bindings@,
            n,
        )) || (lookup(parent, n) is Some && ty_eq(lookup(parent, n)->0, t)) {
            None
        } else {
            Some(t)
        },
    }
}

/// `m` joins a branch change with the opaque type.
pub open spec fn joined_with_unknown(x: RType, m: RType) -> bool {
    exists|u: RType| is_unknown_type(u) && #[trigger] join_of(x, u, m)
}

/// `m` merges the branch changes `a` and `b`: both join; a single change
/// joins with the opaque type.
pub open spec fn pair_join(a: Option<RType>, b: Option<RType>, m: RType) -> bool {
    match (a, b) {
        (Some(x), Some(y)) => join_of(x, y, m),
        (Some(x), None) => joined_with_unknown(x, m),
        (None, Some(y)) => joined_with_unknown(y, m),
        (None, None) => false,
    }
}

/// `f` folds the parent's binding of `n`, if any, into the merge `m`: a
/// structural copy of the parent's type joined with `m`.
pub open spec fn fold_parent(parent: Scope, n: Seq<char>, m: RType, f: RType) -> bool {
    match lookup(parent, n) {
        Some(p) => exists|p2: RType| #[trigger] ty_eq(p2, p) && join_of(p2, m, f),
        None => f == m,
    }
}

/// What a branch merge binds `n` to.
pub open spec fn merged_binding(parent: Scope, n: Seq<char>, a: Option<RType>, b: Option<RType>, f: RType) -> bool {
    exists|m: RType| #[trigger] pair_join(a, b, m) && fold_parent(parent, n, m, f)
}

/// The else branch's change, when there is an else branch.
pub open spec fn else_change(parent: Scope, else_scope: Scope, has_else: bool, narrowed: Seq<String>, n: Seq<char>) -> Option<RType> {
    if has_else {
        branch_change(parent, else_scope, narrowed, n)
    } else {
        None
    }
}

/// The names of `v` are pairwise distinct.
pub open spec fn distinct_names(v: Seq<String>) -> bool {
    forall|i: int, j: int| 0 <= i < v.len() && 0 <= j < v.len() && i != j ==> (#[trigger] v[i])@ != (#[trigger] v[j])@
}

/// Whether `n` is the key of a first entry among `s[from..]`.
pub open spec fn first_key_from<V>(s: Seq<(String, V)>, from: int, n: Seq<char>) -> bool {
    exists|i: int| from <= i < s.len() && first_entry(s, i) && (#[trigger] s[i]).0@ == n
}

proof fn lemma_first_key_all<V>(s: Seq<(String, V)>, n: Seq<char>)
    ensures
        first_key_from(s, 0, n) == (assoc(s, n, 0) is Some),
{
    if assoc(s, n, 0) is Some {
        lemma_assoc_some_first(s, n, 0);
        let i = choose|i: int|
            0 <= i < s.len() && (#[trigger] s[i]).0@ == n && s[i].1 == assoc(s, n, 0)->0
                && forall|j: int| 0 <= j < i ==> (#[trigger] s[j]).0@ != n;
        assert(first_entry(s, i));
    }
    if first_key_from(s, 0, n) {
        let i = choose|i: int| 0 <= i < s.len() && first_entry(s, i) && (#[trigger] s[i]).0@ == n;
        lemma_assoc_key_present(s, n, i, 0);
    }
}

/// Whether `n` is among `names`, and where.
fn name_position(names: &Vec<String>, n: &str) -> (r: Option<usize>)
    ensures
        match r {
            Some(k) => k < names@.len() && names@[k as int]@ == n@,
            None => !has_name(names@, n@),
        },
{
    let mut k: usize = 0;
    while k < names.len()
        invariant
            k <= names@.len(),
            forall|x: int| 0 <= x < k ==> (#[trigger] names@[x])@ != n@,
        decreases names.len() - k,
    {
        if crate::text::str_eq(names[k].as_str(), n) {
            return Some(k);
        }
        k = k + 1;
    }
    None
}

/// Whether the branch change of `name` is folded back.
fn changes(parent: &Scope, marks: &Vec<String>, narrowed: &Vec<String>, name: &str, t: &RType) -> (r: bool)
    ensures
        r == !((has_name(narrowed@, name@) && lookup(*parent, name@) is Some && has_name(marks@, name@))
            || (lookup(*parent, name@) is Some && ty_eq(lookup(*parent, name@)->0, *t))),
{
    match parent.get(name) {
        Some(p) => {
            if names_contain(narrowed, name) && names_contain(marks, name) {
                return false;
            }
            !crate::types::same_type(p, t)
        },
        None => true,
    }
}

/// `b` holds the per-binding marks of `a` except on the names `cleared`
/// picks, which lose every mark and alias, as a plain rebinding does.
pub open spec fn marks_cleared(a: Scope, b: Scope, cleared: spec_fn(Seq<char>) -> bool) -> bool {
    &&& forall|n: Seq<char>|
        #![trigger has_name(b.default_parameters@, n)]
        has_name(b.default_parameters@, n) == (has_name(a.default_parameters@, n) && !cleared(n))
    &&& forall|n: Seq<char>|
        #![trigger has_name(b.narrowed_bindings@, n)]
        has_name(b.narrowed_bindings@, n) == (has_name(a.narrowed_bindings@, n) && !cleared(n))
    &&& forall|n: Seq<char>|
        #![trigger has_name(b.list_origin_bindings@, n)]
        has_name(b.list_origin_bindings@, n) == (has_name(a.list_origin_bindings@, n) && !cleared(n))
    &&& forall|n: Seq<char>|
        #![trigger has_name(b.lexical_functions@, n)]
        has_name(b.lexical_functions@, n) == (has_name(a.lexical_functions@, n) && !cleared(n))
    &&& forall|n: Seq<char>|
        #![trigger assoc(b.function_aliases@, n, 0)]
        assoc(b.function_aliases@, n, 0) == if cleared(n) {
            None
        } else {
            assoc(a.function_aliases@, n, 0)
        }
}

/// The scope `merge_branch_bindings` leaves: each name a branch changed
/// holds the merge of the branches' types, with its marks cleared, and
/// every other binding, the parameters and the flags are as before.
pub open spec fn merge_effect(old: Scope, new: Scope, then_scope: Scope, else_scope: Scope, has_else: bool, narrowed: Seq<String>) -> bool {
    &&& forall|n: Seq<char>|
        #![trigger lookup(new, n)]
        ({
            let a = branch_change(old, then_scope, narrowed, n);
            let b = else_change(old, else_scope, has_else, narrowed, n);
            if a is None && b is None {
                lookup(new, n) == lookup(old, n)
            } else {
                lookup(new, n) matches Some(f) && merged_binding(old, n, a, b, f)
            }
        })
    &&& crate::scope::names_same(old.parameters@, new.parameters@)
    &&& marks_cleared(
        old,
        new,
        |n: Seq<char>|
            branch_change(old, then_scope, narrowed, n) is Some || else_change(old, else_scope, has_else, narrowed, n) is Some,
    )
    &&& crate::scope::same_flags(old, new)
}

impl crate::checker::Checker {
    /// Fold the bindings of an `if`'s branches back into the enclosing
    /// scope. A name a branch changes (other than by its own narrowing
    /// refinement of a parent binding, or to a structurally equal type)
    /// gets the join of both branches' changes, or of the one change with
    /// the opaque type; a parent binding of the name is joined in as well.
    /// Names neither branch changes keep their binding.
    pub fn merge_branch_bindings(
        &self,
        scope: &mut Scope,
        then_scope: Scope,
        else_scope: Scope,
        has_else: bool,
        narrowed: &Vec<String>,
    )
        ensures
            forall|n: Seq<char>|
                #![trigger lookup(*final(scope), n)]
                ({
                    let a = branch_change(*old(scope), then_scope, narrowed@, n);
                    let b = else_change(*old(scope), else_scope, has_else, narrowed@, n);
                    if a is None && b is None {
                        lookup(*final(scope), n) == lookup(*old(scope), n)
                    } else {
                        lookup(*final(scope), n) matches Some(f) && merged_binding(*old(scope), n, a, b, f)
                    }
                }),
            crate::scope::names_same(old(scope).parameters@, final(scope).parameters@),
            marks_cleared(
                *old(scope),
                *final(scope),
                |n: Seq<char>|
                    branch_change(*old(scope), then_scope, narrowed@, n) is Some || else_change(
                        *old(scope),
                        else_scope,
                        has_else,
                        narrowed@,
                        n,
                    ) is Some,
            ),
            crate::scope::same_flags(*old(scope), *final(scope)),
    {
        let ghost s0 = *scope;
        let ghost then0 = then_scope;
        let ghost else0 = else_scope;
        let mut names: Vec<String> = Vec::new();
        let mut tv: Vec<Option<RType>> = Vec::new();
        let mut ev: Vec<Option<RType>> = Vec::new();
        // The then branch's changes.
        let Scope { bindings: then_bindings, narrowed_bindings: then_marks, .. } = then_scope;
        let ghost tb0 = then_bindings@;
        let tflags = first_flags(&then_bindings);
        let mut tb = then_bindings;
        while tb.len() > 0
            invariant
                tb@.len() <= tb0.len(),
                tb@ == tb0.take(tb@.len() as int),
                tb0 == then0.bindings@,
                then_marks == then0.narrowed_bindings,
                tflags@.len() == tb0.len(),
                forall|i: int| 0 <= i < tb0.len() ==> #[trigger] tflags@[i] == first_entry(tb0, i),
                *scope == s0,
                names@.len() == tv@.len(),
                names@.len() == ev@.len(),
                distinct_names(names@),
                forall|k: int| 0 <= k < names@.len() ==> #[trigger] tv@[k] == branch_change(s0, then0, narrowed@, names@[k]@) && tv@[k] is Some,
                forall|k: int| 0 <= k < names@.len() ==> (#[trigger] ev@[k]) is None,
                forall|n: Seq<char>|
                    #![trigger has_name(names@, n)]
                    has_name(names@, n) == (branch_change(s0, then0, narrowed@, n) is Some && first_key_from(tb0, tb@.len() as int, n)),
            decreases tb.len(),
        {
            let ghost idx = tb@.len() - 1;
            let (name, t) = tb.pop().unwrap();
            proof {
                assert(tb0[idx] == (name, t));
                assert forall|n: Seq<char>| first_key_from(tb0, idx, n) == (first_key_from(tb0, idx + 1, n) || (first_entry(tb0, idx) && n == name@)) by {
                    if first_key_from(tb0, idx, n) {
                        let i = choose|i: int| idx <= i < tb0.len() && first_entry(tb0, i) && (#[trigger] tb0[i]).0@ == n;
                        if i > idx {
                            assert(first_key_from(tb0, idx + 1, n));
                        }
                    }
                    if first_key_from(tb0, idx + 1, n) {
                        let i = choose|i: int| idx + 1 <= i < tb0.len() && first_entry(tb0, i) && (#[trigger] tb0[i]).0@ == n;
                        assert(first_key_from(tb0, idx, n));
                    }
                    if first_entry(tb0, idx) && n == name@ {
                        assert(tb0[idx].0@ == n);
                    }
                }
            }
            if tflags[tb.len()] {
                proof {
                    lemma_assoc_first(tb0, idx, name@, 0);
                }
                if changes(scope, &then_marks, narrowed, name.as_str(), &t) {
                    proof {
                        assert(!has_name(names@, name@)) by {
                            if has_name(names@, name@) {
                                let n = name@;
                                let i = choose|i: int| idx + 1 <= i < tb0.len() && first_entry(tb0, i) && (#[trigger] tb0[i]).0@ == n;
                                assert(tb0[idx].0@ == tb0[i].0@);
                            }
                        }
                    }
                    let ghost before = names@;
                    names.push(name);
                    tv.push(Some(t));
                    ev.push(None);
                    proof {
                        assert forall|n: Seq<char>| #![trigger has_name(names@, n)] has_name(names@, n) == (has_name(before, n) || n == names@.last()@) by {
                            if has_name(names@, n) {
                                let k = choose|k: int| 0 <= k < names@.len() && #[trigger] names@[k]@ == n;
                                if k < before.len() {
                                    assert(before[k] == names@[k]);
                                }
                            }
                            if has_name(before, n) {
                                let k = choose|k: int| 0 <= k < before.len() && #[trigger] before[k]@ == n;
                                assert(names@[k] == before[k]);
                            }
                            if n == names@.last()@ {
                                assert(names@[names@.len() - 1]@ == n);
                            }
                        }
                        assert forall|i: int, j: int| 0 <= i < names@.len() && 0 <= j < names@.len() && i != j implies (#[trigger] names@[i])@ != (#[trigger] names@[j])@ by {
                            if i < before.len() && j < before.len() {
                                assert(names@[i] == before[i] && names@[j] == before[j]);
                            } else if i < before.len() {
                                assert(names@[i] == before[i]);
                                assert(has_name(before, before[i]@));
                            } else if j < before.len() {
                                assert(names@[j] == before[j]);
                                assert(has_name(before, before[j]@));
                            }
                        }
                    }
                }
            }
        }
        proof {
            assert forall|n: Seq<char>| #![trigger has_name(names@, n)]
                has_name(names@, n) == (branch_change(s0, then0, narrowed@, n) is Some) by {
                lemma_first_key_all(tb0, n);
            }
        }
        // The else branch's changes.
        if has_else {
            let Scope { bindings: else_bindings, narrowed_bindings: else_marks, .. } = else_scope;
            let ghost eb0 = else_bindings@;
            let eflags = first_flags(&else_bindings);
            let mut eb = else_bindings;
            while eb.len() > 0
                invariant
                    eb@.len() <= eb0.len(),
                    eb@ == eb0.take(eb@.len() as int),
                    eb0 == else0.bindings@,
                    else_marks == else0.narrowed_bindings,
                    eflags@.len() == eb0.len(),
                    forall|i: int| 0 <= i < eb0.len() ==> #[trigger] eflags@[i] == first_entry(eb0, i),
                    *scope == s0,
                    names@.len() == tv@.len(),
                    names@.len() == ev@.len(),
                    distinct_names(names@),
                    forall|k: int| 0 <= k < names@.len() ==> #[trigger] tv@[k] == branch_change(s0, then0, narrowed@, names@[k]@),
                    forall|k: int| 0 <= k < names@.len() ==> #[trigger] ev@[k] == if first_key_from(eb0, eb@.len() as int, names@[k]@) {
                        branch_change(s0, else0, narrowed@, names@[k]@)
                    } else {
                        None
                    },
                    forall|k: int| 0 <= k < names@.len() ==> (#[trigger] tv@[k]) is Some || ev@[k] is Some,
                    forall|n: Seq<char>|
                        #![trigger has_name(names@, n)]
                        has_name(names@, n) == (branch_change(s0, then0, narrowed@, n) is Some || (branch_change(s0, else0, narrowed@, n) is Some && first_key_from(eb0, eb@.len() as int, n))),
                decreases eb.len(),
            {
                let ghost idx = eb@.len() - 1;
                let (name, t) = eb.pop().unwrap();
                proof {
                    assert(eb0[idx] == (name, t));
                    assert forall|n: Seq<char>| first_key_from(eb0, idx, n) == (first_key_from(eb0, idx + 1, n) || (first_entry(eb0, idx) && n == name@)) by {
                        if first_key_from(eb0, idx, n) {
                            let i = choose|i: int| idx <= i < eb0.len() && first_entry(eb0, i) && (#[trigger] eb0[i]).0@ == n;
                            if i > idx {
                                assert(first_key_from(eb0, idx + 1, n));
                            }
                        }
                        if first_key_from(eb0, idx + 1, n) {
                            let i = choose|i: int| idx + 1 <= i < eb0.len() && first_entry(eb0, i) && (#[trigger] eb0[i]).0@ == n;
                            assert(first_key_from(eb0, idx, n));
                        }
                        if first_entry(eb0, idx) && n == name@ {
                            assert(eb0[idx].0@ == n);
                        }
                    }
                    // A later first entry never holds the same key.
                    if first_entry(eb0, idx) {
                        assert(!first_key_from(eb0, idx + 1, name@)) by {
                            if first_key_from(eb0, idx + 1, name@) {
                                let n = name@;
                                let i = choose|i: int| idx + 1 <= i < eb0.len() && first_entry(eb0, i) && (#[trigger] eb0[i]).0@ == n;
                                assert(eb0[idx].0@ == eb0[i].0@);
                            }
                        }
                    }
                }
                let ghost names_before = names@;
                let ghost tv_before = tv@;
                let ghost ev_before = ev@;
                if eflags[eb.len()] {
                    proof {
                        lemma_assoc_first(eb0, idx, name@, 0);
                    }
                    if changes(scope, &else_marks, narrowed, name.as_str(), &t) {
                        match name_position(&names, name.as_str()) {
                            Some(k) => {
                                ev.set(k, Some(t));
                                proof {
                                    assert forall|x: int| 0 <= x < names@.len() && x != k implies names@[x]@ != name@ by {
                                        assert(names@[x]@ != names@[k as int]@);
                                    }
                                }
                            },
                            None => {
                                names.push(name);
                                tv.push(None);
                                ev.push(Some(t));
                                proof {
                                    assert(tv@.last() == branch_change(s0, then0, narrowed@, name@)) by {
                                        if branch_change(s0, then0, narrowed@, name@) is Some {
                                            assert(has_name(names_before, name@));
                                        }
                                    }
                                    assert forall|n: Seq<char>| #![trigger has_name(names@, n)] has_name(names@, n) == (has_name(names_before, n) || n == name@) by {
                                        if has_name(names@, n) {
                                            let k = choose|k: int| 0 <= k < names@.len() && #[trigger] names@[k]@ == n;
                                            if k < names_before.len() {
                                                assert(names_before[k] == names@[k]);
                                            }
                                        }
                                        if has_name(names_before, n) {
                                            let k = choose|k: int| 0 <= k < names_before.len() && #[trigger] names_before[k]@ == n;
                                            assert(names@[k] == names_before[k]);
                                        }
                                        if n == name@ {
                                            assert(names@[names@.len() - 1]@ == n);
                                        }
                                    }
                                    assert forall|i: int, j: int| 0 <= i < names@.len() && 0 <= j < names@.len() && i != j implies (#[trigger] names@[i])@ != (#[trigger] names@[j])@ by {
                                        if i < names_before.len() && j < names_before.len() {
                                            assert(names@[i] == names_before[i] && names@[j] == names_before[j]);
                                        } else if i < names_before.len() {
                                            assert(names@[i] == names_before[i]);
                                            assert(has_name(names_before, names_before[i]@));
                                        } else if j < names_before.len() {
                                            assert(names@[j] == names_before[j]);
                                            assert(has_name(names_before, names_before[j]@));
                                        }
                                    }
                                }
                            },
                        }
                    }
                }
                proof {
                    assert forall|k: int| 0 <= k < names@.len() implies #[trigger] ev@[k] == if first_key_from(eb0, idx, names@[k]@) {
                        branch_change(s0, else0, narrowed@, names@[k]@)
                    } else {
                        None
                    } by {
                        if k < names_before.len() {
                            assert(names@[k] == names_before[k]);
                        }
                    }
                    assert forall|k: int| 0 <= k < names@.len() implies #[trigger] tv@[k] == branch_change(s0, then0, narrowed@, names@[k]@) by {
                        if k < names_before.len() {
                            assert(names@[k] == names_before[k]);
                            assert(tv@[k] == tv_before[k]);
                        }
                    }
                    assert forall|k: int| 0 <= k < names@.len() implies (#[trigger] tv@[k]) is Some || ev@[k] is Some by {
                        if k < names_before.len() {
                            assert(names@[k] == names_before[k]);
                            assert(tv@[k] == tv_before[k]);
                        }
                    }
                }
            }
            proof {
                assert forall|k: int| 0 <= k < names@.len() implies #[trigger] ev@[k] == else_change(s0, else0, has_else, narrowed@, names@[k]@) by {
                    lemma_first_key_all(eb0, names@[k]@);
                    if branch_change(s0, else0, narrowed@, names@[k]@) is Some {
                        assert(lookup(else0, names@[k]@) is Some);
                    }
                }
                assert forall|n: Seq<char>| #![trigger has_name(names@, n)]
                    has_name(names@, n) == (branch_change(s0, then0, narrowed@, n) is Some || else_change(s0, else0, has_else, narrowed@, n) is Some) by {
                    lemma_first_key_all(eb0, n);
                }
            }
        }
        proof {
            if !has_else {
                assert forall|k: int| 0 <= k < names@.len() implies #[trigger] ev@[k] == else_change(s0, else0, has_else, narrowed@, names@[k]@) by {}
            }
        }
        // Fold each change into the scope.
        let ghost all_names = names@;
        while names.len() > 0
            invariant
                names@.len() <= all_names.len(),
                names@ == all_names.take(names@.len() as int),
                names@.len() == tv@.len(),
                names@.len() == ev@.len(),
                distinct_names(all_names),
                forall|k: int| 0 <= k < names@.len() ==> #[trigger] tv@[k] == branch_change(s0, then0, narrowed@, names@[k]@),
                forall|k: int| 0 <= k < names@.len() ==> #[trigger] ev@[k] == else_change(s0, else0, has_else, narrowed@, names@[k]@),
                forall|n: Seq<char>|
                    #![trigger has_name(all_names, n)]
                    has_name(all_names, n) == (branch_change(s0, then0, narrowed@, n) is Some || else_change(s0, else0, has_else, narrowed@, n) is Some),
                forall|n: Seq<char>|
                    #![trigger lookup(*scope, n)]
                    if has_name(names@, n) || !has_name(all_names, n) {
                        lookup(*scope, n) == lookup(s0, n)
                    } else {
                        lookup(*scope, n) matches Some(f) && merged_binding(
                            s0,
                            n,
                            branch_change(s0, then0, narrowed@, n),
                            else_change(s0, else0, has_else, narrowed@, n),
                            f,
                        )
                    },
                crate::scope::names_same(s0.parameters@, scope.parameters@),
                marks_cleared(s0, *scope, |n: Seq<char>| has_name(all_names, n) && !has_name(names@, n)),
                crate::scope::same_flags(s0, *scope),
            decreases names.len(),
        {
            let ghost before = *scope;
            let ghost remaining = names@;
            let name = names.pop().unwrap();
            let x = tv.pop().unwrap();
            let y = ev.pop().unwrap();
            let ghost k = remaining.len() - 1;
            proof {
                assert(remaining[k] == name);
                assert(names@ == remaining.drop_last());
                assert(has_name(all_names, name@)) by {
                    assert(all_names[k] == remaining[k]);
                }
                assert(!has_name(names@, name@)) by {
                    if has_name(names@, name@) {
                        let j = choose|j: int| 0 <= j < names@.len() && #[trigger] names@[j]@ == name@;
                        assert(all_names[j] == names@[j]);
                        assert(all_names[k] == remaining[k]);
                    }
                }
                assert forall|n: Seq<char>| #![trigger has_name(names@, n)] has_name(remaining, n) == (has_name(names@, n) || n == name@) by {
                    if has_name(remaining, n) {
                        let j = choose|j: int| 0 <= j < remaining.len() && #[trigger] remaining[j]@ == n;
                        if j < k {
                            assert(names@[j] == remaining[j]);
                        }
                    }
                    if has_name(names@, n) {
                        let j = choose|j: int| 0 <= j < names@.len() && #[trigger] names@[j]@ == n;
                        assert(remaining[j] == names@[j]);
                    }
                }
            }
            let ghost m_val: RType;
            let merged = match (x, y) {
                (Some(a), Some(b)) => a.join(b),
                (Some(a), None) => {
                    let u = RType::unknown();
                    let ghost ug = u;
                    let r = a.join(u);
                    proof {
                        assert(is_unknown_type(ug) && join_of(a, ug, r));
                    }
                    r
                },
                (None, Some(b)) => {
                    let u = RType::unknown();
                    let ghost ug = u;
                    let r = b.join(u);
                    proof {
                        assert(is_unknown_type(ug) && join_of(b, ug, r));
                    }
                    r
                },
                (None, None) => {
                    proof {
                        assert(false);
                    }
                    RType::unknown()
                },
            };
            let ghost mg = merged;
            let folded = match scope.get(name.as_str()) {
                Some(p) => {
                    let copied = copy_type(p);
                    let ghost cg = copied;
                    let r = copied.join(merged);
                    proof {
                        assert(ty_eq(cg, *p) && join_of(cg, mg, r));
                    }
                    r
                },
                None => merged,
            };
            let ghost fg = folded;
            scope.insert(name.as_str(), folded);
            proof {
                assert(pair_join(branch_change(s0, then0, narrowed@, name@), else_change(s0, else0, has_else, narrowed@, name@), mg));
                assert(merged_binding(s0, name@, branch_change(s0, then0, narrowed@, name@), else_change(s0, else0, has_else, narrowed@, name@), fg));
                assert forall|n: Seq<char>| #![trigger lookup(*scope, n)]
                    lookup(*scope, n) == if n == name@ { Some(fg) } else { lookup(before, n) } by {}
            }
        }
    }
}
} // verus!
