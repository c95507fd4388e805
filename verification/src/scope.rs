//! Lexical scopes: bindings from names to inferred types, with the
//! per-binding and per-scope facts the checker records.
use vstd::prelude::*;
use crate::text::str_eq;
use crate::types::{RType, copy_type, ty_eq};
use crate::typeshed::{InjectionMode, assoc};

verus! {

/// Whether a list of names holds `name`.
pub open spec fn has_name(v: Seq<String>, name: Seq<char>) -> bool {
    exists|i: int| 0 <= i < v.len() && #[trigger] v[i]@ == name
}

/// A scope.
#[derive(Debug)]
pub struct Scope {
    /// Bindings, first entry for a name wins.
    pub bindings: Vec<(String, RType)>,
    /// Names bound as formal parameters.
    pub parameters: Vec<String>,
    /// Parameters whose recorded type comes from their default.
    pub default_parameters: Vec<String>,
    /// Bindings whose current type is a branch-local narrowing.
    pub narrowed_bindings: Vec<String>,
    /// Bindings known to hold a value built by `list(...)`.
    pub list_origin_bindings: Vec<String>,
    /// Bindings that alias a known function, with the function's name.
    pub function_aliases: Vec<(String, String)>,
    /// Bindings that hold a lexically defined function.
    pub lexical_functions: Vec<String>,
    /// Names may come from an unknown data mask.
    pub data_mask_unknown: bool,
    /// The search path may hold unknown attachments.
    pub search_path_unknown: bool,
    pub tidy_injection: Option<InjectionMode>,
    /// Control cannot reach this point.
    pub unreachable: bool,
    /// An unmodelled effect may have changed bindings.
    pub effects_unknown: bool,
    /// Operator bindings may have been replaced.
    pub ops_environment_unknown: bool,
    /// The innermost enclosing loop, if any.
    pub loop_frame: Option<usize>,
}

/// The type `name` is bound to in `s`.
pub open spec fn lookup(s: Scope, name: Seq<char>) -> Option<RType> {
    assoc(s.bindings@, name, 0)
}

/// Whether `name` is in `v`.
pub fn names_contain(v: &Vec<String>, name: &str) -> (r: bool)
    ensures
        r == has_name(v@, name@),
{
    let mut i: usize = 0;
    while i < v.len()
        invariant
            i <= v@.len(),
            forall|k: int| 0 <= k < i ==> (#[trigger] v@[k])@ != name@,
        decreases v.len() - i,
    {
        if str_eq(v[i].as_str(), name) {
            return true;
        }
        i = i + 1;
    }
    false
}

/// Add `name` to `v` unless present.
pub fn add_name(v: &mut Vec<String>, name: &str)
    ensures
        forall|n: Seq<char>| has_name(final(v)@, n) == (has_name(old(v)@, n) || n == name@),
{
    if !names_contain(v, name) {
        let ghost before = v@;
        v.push(name.to_string());
        assert forall|n: Seq<char>| has_name(v@, n) == (has_name(before, n) || n == name@) by {
            if has_name(before, n) {
                let i = choose|i: int| 0 <= i < before.len() && #[trigger] before[i]@ == n;
                assert(v@[i] == before[i]);
            }
            if n == name@ {
                assert(v@[before.len() as int]@ == n);
            }
            if has_name(v@, n) {
                let i = choose|i: int| 0 <= i < v@.len() && #[trigger] v@[i]@ == n;
                if i < before.len() {
                    assert(before[i] == v@[i]);
                }
            }
        }
    }
}

/// Remove every copy of `name` from `v`.
pub fn remove_name(v: &mut Vec<String>, name: &str)
    ensures
        forall|n: Seq<char>| has_name(final(v)@, n) == (has_name(old(v)@, n) && n != name@),
{
    let ghost before = v@;
    let mut kept: Vec<String> = Vec::new();
    let mut i: usize = 0;
    while i < v.len()
        invariant
            i <= v@.len(),
            v@ == before,
            forall|n: Seq<char>|
                has_name(kept@, n) == (n != name@ && exists|k: int|
                    0 <= k < i && #[trigger] before[k]@ == n),
        decreases v.len() - i,
    {
        if !str_eq(v[i].as_str(), name) {
            let ghost prev = kept@;
            kept.push(v[i].clone());
            assert forall|n: Seq<char>|
                has_name(kept@, n) == (n != name@ && exists|k: int|
                    0 <= k < i + 1 && #[trigger] before[k]@ == n) by {
                if has_name(kept@, n) {
                    let j = choose|j: int| 0 <= j < kept@.len() && #[trigger] kept@[j]@ == n;
                    if j < prev.len() {
                        assert(prev[j] == kept@[j]);
                        assert(has_name(prev, n));
                    } else {
                        assert(before[i as int]@ == n);
                    }
                }
                if n != name@ && exists|k: int| 0 <= k < i + 1 && #[trigger] before[k]@ == n {
                    let k = choose|k: int| 0 <= k < i + 1 && #[trigger] before[k]@ == n;
                    if k < i {
                        assert(has_name(prev, n));
                        let j = choose|j: int| 0 <= j < prev.len() && #[trigger] prev[j]@ == n;
                        assert(kept@[j] == prev[j]);
                    } else {
                        assert(kept@[prev.len() as int]@ == n);
                    }
                }
            }
        } else {
            assert forall|n: Seq<char>|
                has_name(kept@, n) == (n != name@ && exists|k: int|
                    0 <= k < i + 1 && #[trigger] before[k]@ == n) by {
                if n != name@ && exists|k: int| 0 <= k < i + 1 && #[trigger] before[k]@ == n {
                    let k = choose|k: int| 0 <= k < i + 1 && #[trigger] before[k]@ == n;
                    assert(k < i);
                }
            }
        }
        i = i + 1;
    }
    *v = kept;
}

/// Replacing the first entry for a key changes only that key's value.
pub proof fn lemma_assoc_update<V>(s: Seq<(String, V)>, i: int, e: (String, V), key: Seq<char>, from: int)
    requires
        0 <= from <= i < s.len(),
        s[i].0@ == e.0@,
        forall|j: int| from <= j < i ==> (#[trigger] s[j]).0@ != e.0@,
    ensures
        assoc(s.update(i, e), key, from) == if key == e.0@ {
            Some(e.1)
        } else {
            assoc(s, key, from)
        },
    decreases i - from,
{
    if from < i {
        lemma_assoc_update(s, i, e, key, from + 1);
    } else {
        if key != e.0@ {
            assert(assoc(s.update(i, e), key, from) == assoc(s.update(i, e), key, from + 1));
            lemma_assoc_frame(s, i, e, key, from + 1);
        }
    }
}

/// Entries after a replaced position look up as before.
pub proof fn lemma_assoc_frame<V>(s: Seq<(String, V)>, i: int, e: (String, V), key: Seq<char>, from: int)
    requires
        0 <= i < from,
        from <= s.len(),
    ensures
        assoc(s.update(i, e), key, from) == assoc(s, key, from),
    decreases s.len() - from,
{
    if from < s.len() {
        lemma_assoc_frame(s, i, e, key, from + 1);
    }
}

/// Appending an entry only matters for a key no earlier entry holds.
pub proof fn lemma_assoc_push<V>(s: Seq<(String, V)>, e: (String, V), key: Seq<char>, from: int)
    requires
        0 <= from <= s.len(),
    ensures
        assoc(s.push(e), key, from) == match assoc(s, key, from) {
            Some(v) => Some(v),
            None => if e.0@ == key {
                Some(e.1)
            } else {
                None
            },
        },
    decreases s.len() - from,
{
    let t = s.push(e);
    if from < s.len() {
        lemma_assoc_push(s, e, key, from + 1);
        assert(t[from] == s[from]);
        if s[from].0@ == key {
            assert(assoc(t, key, from) == Some(s[from].1));
            assert(assoc(s, key, from) == Some(s[from].1));
        } else {
            assert(assoc(t, key, from) == assoc(t, key, from + 1));
            assert(assoc(s, key, from) == assoc(s, key, from + 1));
        }
    } else {
        assert(t[from] == e);
        assert(assoc(s, key, from) is None);
        if e.0@ != key {
            assert(assoc(t, key, from) == assoc(t, key, from + 1));
        }
    }
}

/// The first index of an entry whose key is `key`.
pub fn find_entry<V>(entries: &Vec<(String, V)>, key: &str) -> (r: Option<usize>)
    ensures
        match r {
            Some(i) => i < entries@.len() && entries@[i as int].0@ == key@ && forall|j: int|
                0 <= j < i ==> (#[trigger] entries@[j]).0@ != key@,
            None => forall|j: int| 0 <= j < entries@.len() ==> (#[trigger] entries@[j]).0@ != key@,
        },
{
    let mut i: usize = 0;
    while i < entries.len()
        invariant
            i <= entries@.len(),
            forall|j: int| 0 <= j < i ==> (#[trigger] entries@[j]).0@ != key@,
        decreases entries.len() - i,
    {
        if str_eq(entries[i].0.as_str(), key) {
            return Some(i);
        }
        i = i + 1;
    }
    None
}

/// Bind `key` to `value`, replacing its first entry or appending one.
pub fn assoc_set<V>(entries: &mut Vec<(String, V)>, key: String, value: V)
    ensures
        forall|k: Seq<char>|
            #![trigger assoc(final(entries)@, k, 0)]
            assoc(final(entries)@, k, 0) == if k == key@ {
                Some(value)
            } else {
                assoc(old(entries)@, k, 0)
            },
{
    let ghost before = entries@;
    let ghost kv = key@;
    let ghost e = (key, value);
    match find_entry(entries, key.as_str()) {
        Some(i) => {
            entries.set(i, (key, value));
            proof {
                assert forall|k: Seq<char>| #![trigger assoc(entries@, k, 0)]
                    assoc(entries@, k, 0) == if k == kv { Some(e.1) } else { assoc(before, k, 0) } by {
                    lemma_assoc_update(before, i as int, e, k, 0);
                }
            }
        },
        None => {
            entries.push((key, value));
            proof {
                assert forall|k: Seq<char>| #![trigger assoc(entries@, k, 0)]
                    assoc(entries@, k, 0) == if k == kv { Some(e.1) } else { assoc(before, k, 0) } by {
                    lemma_assoc_push(before, e, k, 0);
                    if k == kv {
                        lemma_assoc_absent(before, k, 0);
                    }
                }
            }
        },
    }
}

/// A key no entry holds looks up as absent.
pub proof fn lemma_assoc_absent<V>(s: Seq<(String, V)>, key: Seq<char>, from: int)
    requires
        0 <= from <= s.len(),
        forall|j: int| from <= j < s.len() ==> (#[trigger] s[j]).0@ != key,
    ensures
        assoc(s, key, from) is None,
    decreases s.len() - from,
{
    if from < s.len() {
        lemma_assoc_absent(s, key, from + 1);
    }
}

/// Drop every entry for `key`.
pub fn assoc_remove<V>(entries: &mut Vec<(String, V)>, key: &str)
    ensures
        forall|k: Seq<char>|
            #![trigger assoc(final(entries)@, k, 0)]
            assoc(final(entries)@, k, 0) == if k == key@ {
                None
            } else {
                assoc(old(entries)@, k, 0)
            },
{
    let ghost before = entries@;
    let mut rest: Vec<(String, V)> = Vec::new();
    core::mem::swap(entries, &mut rest);
    let mut kept: Vec<(String, V)> = Vec::new();
    let ghost mut k: int = 0;
    assert(before.take(0) =~= Seq::<(String, V)>::empty());
    while rest.len() > 0
        invariant
            0 <= k <= before.len(),
            rest@ == before.subrange(k, before.len() as int),
            forall|q: Seq<char>|
                #![trigger assoc(kept@, q, 0)]
                assoc(kept@, q, 0) == if q == key@ {
                    None
                } else {
                    assoc(before.take(k), q, 0)
                },
        decreases rest.len(),
    {
        let x = rest.remove(0);
        let ghost xv = x;
        let ghost prev = kept@;
        assert(before.take(k + 1) =~= before.take(k).push(xv));
        if !str_eq(x.0.as_str(), key) {
            kept.push(x);
            assert forall|q: Seq<char>| #![trigger assoc(kept@, q, 0)]
                assoc(kept@, q, 0) == if q == key@ { None } else { assoc(before.take(k + 1), q, 0) } by {
                lemma_assoc_push(prev, xv, q, 0);
                lemma_assoc_push(before.take(k), xv, q, 0);
            }
        } else {
            assert forall|q: Seq<char>| #![trigger assoc(kept@, q, 0)]
                assoc(kept@, q, 0) == if q == key@ { None } else { assoc(before.take(k + 1), q, 0) } by {
                lemma_assoc_push(before.take(k), xv, q, 0);
            }
        }
        proof {
            k = k + 1;
        }
    }
    assert(before.take(k) =~= before);
    *entries = kept;
}

impl Scope {
    /// An empty scope.
    pub fn new() -> (r: Scope)
        ensures
            r.bindings@.len() == 0,
            r.parameters@.len() == 0,
            r.default_parameters@.len() == 0,
            r.narrowed_bindings@.len() == 0,
            r.list_origin_bindings@.len() == 0,
            r.function_aliases@.len() == 0,
            r.lexical_functions@.len() == 0,
            !r.data_mask_unknown,
            !r.search_path_unknown,
            r.tidy_injection is None,
            !r.unreachable,
            !r.effects_unknown,
            !r.ops_environment_unknown,
            r.loop_frame is None,
    {
        Scope {
            bindings: Vec::new(),
            parameters: Vec::new(),
            default_parameters: Vec::new(),
            narrowed_bindings: Vec::new(),
            list_origin_bindings: Vec::new(),
            function_aliases: Vec::new(),
            lexical_functions: Vec::new(),
            data_mask_unknown: false,
            search_path_unknown: false,
            tidy_injection: None,
            unreachable: false,
            effects_unknown: false,
            ops_environment_unknown: false,
            loop_frame: None,
        }
    }

    /// The type bound to `name`.
    pub fn get(&self, name: &str) -> (r: Option<&RType>)
        ensures
            match r {
                Some(t) => lookup(*self, name@) == Some(*t),
                None => lookup(*self, name@) is None,
            },
    {
        match find_entry(&self.bindings, name) {
            Some(i) => {
                proof {
                    lemma_assoc_first(self.bindings@, i as int, name@, 0);
                }
                Some(&self.bindings[i].1)
            },
            None => {
                proof {
                    lemma_assoc_absent(self.bindings@, name@, 0);
                }
                None
            },
        }
    }
}

/// The scope-wide facts of `b` are those of `a`.
pub open spec fn same_flags(a: Scope, b: Scope) -> bool {
    &&& a.data_mask_unknown == b.data_mask_unknown
    &&& a.search_path_unknown == b.search_path_unknown
    &&& a.tidy_injection == b.tidy_injection
    &&& a.unreachable == b.unreachable
    &&& a.effects_unknown == b.effects_unknown
    &&& a.ops_environment_unknown == b.ops_environment_unknown
    &&& a.loop_frame == b.loop_frame
}

/// `b` binds `name` to `ty` and otherwise binds as `a` does.
pub open spec fn rebinds(a: Scope, b: Scope, name: Seq<char>, ty: RType) -> bool {
    forall|n: Seq<char>|
        #![trigger lookup(b, n)]
        lookup(b, n) == if n == name {
            Some(ty)
        } else {
            lookup(a, n)
        }
}

/// The name set `f(b)` is `f(a)` with `name` added (`add`), removed
/// (`!add`).
pub open spec fn names_changed(a: Seq<String>, b: Seq<String>, name: Seq<char>, add: bool) -> bool {
    forall|n: Seq<char>|
        #![trigger has_name(b, n)]
        has_name(b, n) == if n == name {
            add
        } else {
            has_name(a, n)
        }
}

/// The name set is unchanged.
pub open spec fn names_same(a: Seq<String>, b: Seq<String>) -> bool {
    forall|n: Seq<char>| #![trigger has_name(b, n)] has_name(b, n) == has_name(a, n)
}

/// The alias table `b` is `a` without `name`.
pub open spec fn aliases_dropped(a: Scope, b: Scope, name: Seq<char>) -> bool {
    forall|n: Seq<char>|
        #![trigger assoc(b.function_aliases@, n, 0)]
        assoc(b.function_aliases@, n, 0) == if n == name {
            None
        } else {
            assoc(a.function_aliases@, n, 0)
        }
}

/// `b` is `a` with `name` refined to `ty` (see `Scope::insert_narrowed`).
pub open spec fn narrowed_update(a: Scope, b: Scope, name: Seq<char>, ty: RType) -> bool {
    &&& rebinds(a, b, name, ty)
    &&& names_same(a.parameters@, b.parameters@)
    &&& names_same(a.default_parameters@, b.default_parameters@)
    &&& names_changed(a.narrowed_bindings@, b.narrowed_bindings@, name, true)
    &&& names_same(a.list_origin_bindings@, b.list_origin_bindings@)
    &&& names_changed(a.lexical_functions@, b.lexical_functions@, name, false)
    &&& aliases_dropped(a, b, name)
    &&& same_flags(a, b)
}

impl Scope {
    /// An ordinary rebinding: the name holds `ty` and loses every
    /// per-binding fact except being a parameter.
    pub fn insert(&mut self, name: &str, ty: RType)
        ensures
            rebinds(*old(self), *final(self), name@, ty),
            names_same(old(self).parameters@, final(self).parameters@),
            names_changed(old(self).default_parameters@, final(self).default_parameters@, name@, false),
            names_changed(old(self).narrowed_bindings@, final(self).narrowed_bindings@, name@, false),
            names_changed(old(self).list_origin_bindings@, final(self).list_origin_bindings@, name@, false),
            names_changed(old(self).lexical_functions@, final(self).lexical_functions@, name@, false),
            aliases_dropped(*old(self), *final(self), name@),
            same_flags(*old(self), *final(self)),
    {
        assoc_set(&mut self.bindings, name.to_string(), ty);
        remove_name(&mut self.default_parameters, name);
        remove_name(&mut self.narrowed_bindings, name);
        remove_name(&mut self.list_origin_bindings, name);
        remove_name(&mut self.lexical_functions, name);
        assoc_remove(&mut self.function_aliases, name);
    }

    /// A branch-local refinement: the name holds `ty`, is marked narrowed,
    /// keeps its parameter and list-origin facts, and no longer aliases a
    /// function.
    pub fn insert_narrowed(&mut self, name: &str, ty: RType)
        ensures
            narrowed_update(*old(self), *final(self), name@, ty),
    {
        assoc_set(&mut self.bindings, name.to_string(), ty);
        add_name(&mut self.narrowed_bindings, name);
        remove_name(&mut self.lexical_functions, name);
        assoc_remove(&mut self.function_aliases, name);
    }

    /// Bind a formal parameter without a default.
    pub fn insert_parameter(&mut self, name: &str, ty: RType)
        ensures
            rebinds(*old(self), *final(self), name@, ty),
            names_changed(old(self).parameters@, final(self).parameters@, name@, true),
            names_changed(old(self).default_parameters@, final(self).default_parameters@, name@, false),
            names_changed(old(self).narrowed_bindings@, final(self).narrowed_bindings@, name@, false),
            names_changed(old(self).list_origin_bindings@, final(self).list_origin_bindings@, name@, false),
            names_changed(old(self).lexical_functions@, final(self).lexical_functions@, name@, false),
            aliases_dropped(*old(self), *final(self), name@),
            same_flags(*old(self), *final(self)),
    {
        let ghost t = ty;
        self.insert(name, ty);
        let ghost mid = *self;
        add_name(&mut self.parameters, name);
        assert forall|n: Seq<char>| #![trigger lookup(*self, n)] lookup(*self, n) == lookup(mid, n) by {}
    }

    /// Bind a formal parameter whose type comes from its default.
    pub fn insert_parameter_default(&mut self, name: &str, ty: RType)
        ensures
            rebinds(*old(self), *final(self), name@, ty),
            names_changed(old(self).parameters@, final(self).parameters@, name@, true),
            names_changed(old(self).default_parameters@, final(self).default_parameters@, name@, true),
            names_changed(old(self).narrowed_bindings@, final(self).narrowed_bindings@, name@, false),
            names_changed(old(self).list_origin_bindings@, final(self).list_origin_bindings@, name@, false),
            names_changed(old(self).lexical_functions@, final(self).lexical_functions@, name@, false),
            aliases_dropped(*old(self), *final(self), name@),
            same_flags(*old(self), *final(self)),
    {
        self.insert(name, ty);
        let ghost mid = *self;
        add_name(&mut self.parameters, name);
        add_name(&mut self.default_parameters, name);
        assert forall|n: Seq<char>| #![trigger lookup(*self, n)] lookup(*self, n) == lookup(mid, n) by {}
    }

    /// Whether `name` is bound as a formal parameter.
    pub fn is_parameter(&self, name: &str) -> (r: bool)
        ensures
            r == has_name(self.parameters@, name@),
    {
        names_contain(&self.parameters, name)
    }

    /// Whether `name` is a parameter whose type comes from its default.
    pub fn is_default_parameter(&self, name: &str) -> (r: bool)
        ensures
            r == has_name(self.default_parameters@, name@),
    {
        names_contain(&self.default_parameters, name)
    }

    /// Record that `name` holds a value built by `list(...)`.
    pub fn mark_list_origin(&mut self, name: &str)
        ensures
            names_changed(old(self).list_origin_bindings@, final(self).list_origin_bindings@, name@, true),
            final(self).bindings == old(self).bindings,
            final(self).parameters == old(self).parameters,
            final(self).default_parameters == old(self).default_parameters,
            final(self).narrowed_bindings == old(self).narrowed_bindings,
            final(self).lexical_functions == old(self).lexical_functions,
            final(self).function_aliases == old(self).function_aliases,
            same_flags(*old(self), *final(self)),
    {
        add_name(&mut self.list_origin_bindings, name);
    }

    /// Whether `name` holds a value built by `list(...)`.
    pub fn has_list_origin(&self, name: &str) -> (r: bool)
        ensures
            r == has_name(self.list_origin_bindings@, name@),
    {
        names_contain(&self.list_origin_bindings, name)
    }

    /// Record that `name` aliases the function `target`.
    pub fn set_function_alias(&mut self, name: &str, target: String)
        ensures
            forall|n: Seq<char>|
                #![trigger assoc(final(self).function_aliases@, n, 0)]
                assoc(final(self).function_aliases@, n, 0) == if n == name@ {
                    Some(target)
                } else {
                    assoc(old(self).function_aliases@, n, 0)
                },
            final(self).bindings == old(self).bindings,
            final(self).parameters == old(self).parameters,
            final(self).default_parameters == old(self).default_parameters,
            final(self).narrowed_bindings == old(self).narrowed_bindings,
            final(self).list_origin_bindings == old(self).list_origin_bindings,
            final(self).lexical_functions == old(self).lexical_functions,
            same_flags(*old(self), *final(self)),
    {
        assoc_set(&mut self.function_aliases, name.to_string(), target);
    }

    /// The function `name` aliases, if any.
    pub fn function_alias(&self, name: &str) -> (r: Option<&str>)
        ensures
            match r {
                Some(t) => assoc(self.function_aliases@, name@, 0) matches Some(x) && x@ == t@,
                None => assoc(self.function_aliases@, name@, 0) is None,
            },
    {
        match find_entry(&self.function_aliases, name) {
            Some(i) => {
                proof {
                    lemma_assoc_first(self.function_aliases@, i as int, name@, 0);
                }
                Some(self.function_aliases[i].1.as_str())
            },
            None => {
                proof {
                    lemma_assoc_absent(self.function_aliases@, name@, 0);
                }
                None
            },
        }
    }

    /// Record that `name` holds a lexically defined function.
    pub fn mark_lexical_function(&mut self, name: &str)
        ensures
            names_changed(old(self).lexical_functions@, final(self).lexical_functions@, name@, true),
            final(self).bindings == old(self).bindings,
            final(self).parameters == old(self).parameters,
            final(self).default_parameters == old(self).default_parameters,
            final(self).narrowed_bindings == old(self).narrowed_bindings,
            final(self).list_origin_bindings == old(self).list_origin_bindings,
            final(self).function_aliases == old(self).function_aliases,
            same_flags(*old(self), *final(self)),
    {
        add_name(&mut self.lexical_functions, name);
    }

    /// Whether `name` holds a lexically defined function.
    pub fn is_lexical_function(&self, name: &str) -> (r: bool)
        ensures
            r == has_name(self.lexical_functions@, name@),
    {
        names_contain(&self.lexical_functions, name)
    }

    /// The same scope, with names possibly supplied by an unknown data mask.
    pub fn with_unknown_data_mask(self) -> (r: Scope)
        ensures
            r == (Scope { data_mask_unknown: true, ..self }),
    {
        Scope { data_mask_unknown: true, ..self }
    }

    /// Record that an unmodelled effect may have changed any binding.
    pub fn invalidate_unknown_effects(&mut self)
        ensures
            *final(self) == (Scope { effects_unknown: true, ..*old(self) }),
    {
        self.effects_unknown = true;
    }

    /// Record that the search path may hold unknown attachments.
    pub fn mark_search_path_unknown(&mut self)
        ensures
            *final(self) == (Scope { search_path_unknown: true, ..*old(self) }),
    {
        self.search_path_unknown = true;
    }
}

/// The first entry for a key is the one looked up.
pub proof fn lemma_assoc_first<V>(s: Seq<(String, V)>, i: int, key: Seq<char>, from: int)
    requires
        0 <= from <= i < s.len(),
        s[i].0@ == key,
        forall|j: int| from <= j < i ==> (#[trigger] s[j]).0@ != key,
    ensures
        assoc(s, key, from) == Some(s[i].1),
    decreases i - from,
{
    if from < i {
        lemma_assoc_first(s, i, key, from + 1);
    }
}

/// `a` and `b` bind the same names to structurally equal types.
pub open spec fn bindings_eq(a: Scope, b: Scope) -> bool {
    forall|n: Seq<char>|
        #![trigger lookup(b, n)]
        match (lookup(a, n), lookup(b, n)) {
            (None, None) => true,
            (Some(x), Some(y)) => ty_eq(y, x),
            _ => false,
        }
}

/// `b` is a copy of `a`.
pub open spec fn scope_eq(a: Scope, b: Scope) -> bool {
    &&& bindings_eq(a, b)
    &&& a.parameters@ == b.parameters@
    &&& a.default_parameters@ == b.default_parameters@
    &&& a.narrowed_bindings@ == b.narrowed_bindings@
    &&& a.list_origin_bindings@ == b.list_origin_bindings@
    &&& a.function_aliases@ == b.function_aliases@
    &&& a.lexical_functions@ == b.lexical_functions@
    &&& same_flags(a, b)
}

/// Entry lists with equal keys and structurally equal values look up alike.
pub proof fn lemma_assoc_related(
    s: Seq<(String, RType)>,
    t: Seq<(String, RType)>,
    key: Seq<char>,
    from: int,
)
    requires
        s.len() == t.len(),
        0 <= from <= s.len(),
        forall|i: int| 0 <= i < s.len() ==> (#[trigger] t[i]).0 == s[i].0 && ty_eq(t[i].1, s[i].1),
    ensures
        match (assoc(s, key, from), assoc(t, key, from)) {
            (None, None) => true,
            (Some(x), Some(y)) => ty_eq(y, x),
            _ => false,
        },
    decreases s.len() - from,
{
    if from < s.len() {
        assert(t[from].0 == s[from].0);
        lemma_assoc_related(s, t, key, from + 1);
    }
}

/// A copy of a list of names.
pub fn copy_names(v: &Vec<String>) -> (r: Vec<String>)
    ensures
        r@ == v@,
{
    let mut out: Vec<String> = Vec::new();
    let mut i: usize = 0;
    while i < v.len()
        invariant
            i <= v@.len(),
            out@ == v@.take(i as int),
        decreases v.len() - i,
    {
        out.push(v[i].clone());
        assert(out@ =~= v@.take(i + 1));
        i = i + 1;
    }
    assert(v@.take(v@.len() as int) =~= v@);
    out
}

/// A copy of a scope.
pub fn copy_scope(s: &Scope) -> (r: Scope)
    ensures
        scope_eq(*s, r),
{
    let mut bindings: Vec<(String, RType)> = Vec::new();
    let mut i: usize = 0;
    while i < s.bindings.len()
        invariant
            i <= s.bindings@.len(),
            bindings@.len() == i,
            forall|k: int|
                0 <= k < i ==> (#[trigger] bindings@[k]).0 == s.bindings@[k].0 && ty_eq(
                    bindings@[k].1,
                    s.bindings@[k].1,
                ),
        decreases s.bindings.len() - i,
    {
        bindings.push((s.bindings[i].0.clone(), copy_type(&s.bindings[i].1)));
        i = i + 1;
    }
    let mut aliases: Vec<(String, String)> = Vec::new();
    let mut i: usize = 0;
    while i < s.function_aliases.len()
        invariant
            i <= s.function_aliases@.len(),
            aliases@ == s.function_aliases@.take(i as int),
        decreases s.function_aliases.len() - i,
    {
        aliases.push((s.function_aliases[i].0.clone(), s.function_aliases[i].1.clone()));
        assert(aliases@ =~= s.function_aliases@.take(i + 1));
        i = i + 1;
    }
    assert(s.function_aliases@.take(s.function_aliases@.len() as int) =~= s.function_aliases@);
    let r = Scope {
        bindings,
        parameters: copy_names(&s.parameters),
        default_parameters: copy_names(&s.default_parameters),
        narrowed_bindings: copy_names(&s.narrowed_bindings),
        list_origin_bindings: copy_names(&s.list_origin_bindings),
        function_aliases: aliases,
        lexical_functions: copy_names(&s.lexical_functions),
        data_mask_unknown: s.data_mask_unknown,
        search_path_unknown: s.search_path_unknown,
        tidy_injection: s.tidy_injection,
        unreachable: s.unreachable,
        effects_unknown: s.effects_unknown,
        ops_environment_unknown: s.ops_environment_unknown,
        loop_frame: s.loop_frame,
    };
    assert forall|n: Seq<char>| #![trigger lookup(r, n)]
        match (lookup(*s, n), lookup(r, n)) {
            (None, None) => true,
            (Some(x), Some(y)) => ty_eq(y, x),
            _ => false,
        } by {
        lemma_assoc_related(s.bindings@, r.bindings@, n, 0);
    }
    r
}

impl Clone for Scope {
    fn clone(&self) -> (r: Self)
        ensures
            scope_eq(*self, r),
    {
        copy_scope(self)
    }
}

} // verus!
