//! R's argument matching: exact names, unique partial names, then positions.
use vstd::prelude::*;
use crate::ast::Arg;
use crate::text::{starts_with, str_eq};

verus! {

/// The text `...`.
pub open spec fn dots_text() -> Seq<char> {
    seq!['.', '.', '.']
}

/// Whether `s` is the text `...`.
pub fn is_dots(s: &str) -> (r: bool)
    ensures
        r == (s@ == dots_text()),
{
    if s.unicode_len() != 3 {
        return false;
    }
    let r = s.get_char(0) == '.' && s.get_char(1) == '.' && s.get_char(2) == '.';
    if r {
        assert(s@ =~= dots_text());
    }
    r
}

/// Whether `c` quotes an R name at both ends.
pub open spec fn is_quote(c: char) -> bool {
    c == '"' || c == '\'' || c == '`'
}

/// A name with one pair of matching surrounding quotes removed.
pub open spec fn semantic_name(s: Seq<char>) -> Seq<char> {
    if s.len() >= 2 && is_quote(s[0]) && s[s.len() - 1] == s[0] {
        s.subrange(1, s.len() - 1)
    } else {
        s
    }
}

/// The name R binds for a possibly quoted argument tag or formal:
/// `` `x` ``, `"x"` and `'x'` all name `x`.
pub fn semantic_argument_name(name: &str) -> (r: String)
    ensures
        r@ == semantic_name(name@),
{
    let n = name.unicode_len();
    if n >= 2 {
        let first = name.get_char(0);
        let last = name.get_char(n - 1);
        if (first == '"' || first == '\'' || first == '`') && last == first {
            return name.substring_char(1, n - 1).to_string();
        }
    }
    name.to_string()
}

/// The state of argument matching: the formal each actual binds, and
/// which formals are bound.
pub struct MatchState {
    pub pfa: Seq<Option<int>>,
    pub bound: Seq<bool>,
}

/// First index `j >= from` of a formal equal to `name` that is not `...`.
pub open spec fn exact_from(params: Seq<Seq<char>>, name: Seq<char>, from: int) -> Option<int>
    decreases params.len() - from,
{
    if from < 0 || from >= params.len() {
        None
    } else if params[from] != dots_text() && params[from] == name {
        Some(from)
    } else {
        exact_from(params, name, from + 1)
    }
}

/// First index of `...` at or after `from`.
pub open spec fn dots_from(params: Seq<Seq<char>>, from: int) -> Option<int>
    decreases params.len() - from,
{
    if from < 0 || from >= params.len() {
        None
    } else if params[from] == dots_text() {
        Some(from)
    } else {
        dots_from(params, from + 1)
    }
}

/// Where partial and positional matching stop: at `...`, or the end.
pub open spec fn partial_end(params: Seq<Seq<char>>) -> int {
    match dots_from(params, 0) {
        Some(d) => d,
        None => params.len() as int,
    }
}

/// Whether `name` is a prefix of `param`.
pub open spec fn is_prefix(name: Seq<char>, param: Seq<char>) -> bool {
    name.len() <= param.len() && param.subrange(0, name.len() as int) == name
}

/// First unbound formal `j` in `[from, end)` that `name` is a prefix of.
pub open spec fn candidate_from(
    params: Seq<Seq<char>>,
    bound: Seq<bool>,
    name: Seq<char>,
    end: int,
    from: int,
) -> Option<int>
    decreases end - from,
{
    if from < 0 || from >= end {
        None
    } else if !bound[from] && is_prefix(name, params[from]) {
        Some(from)
    } else {
        candidate_from(params, bound, name, end, from + 1)
    }
}

/// Pass 1: every named actual binds the first formal its name equals exactly.
pub open spec fn exact_pass(params: Seq<Seq<char>>, names: Seq<Option<Seq<char>>>) -> MatchState {
    let pfa = Seq::new(
        names.len(),
        |i: int|
            match names[i] {
                Some(n) => exact_from(params, n, 0),
                None => None,
            },
    );
    MatchState {
        pfa,
        bound: Seq::new(
            params.len(),
            |j: int| exists|i: int| 0 <= i < names.len() && pfa[i] == Some(j),
        ),
    }
}

/// Pass 2, after the first `k` actuals: an unmatched named actual binds the
/// formal before `...` its name is a prefix of, when that formal is the only
/// unbound one.
pub open spec fn partial_pass(
    params: Seq<Seq<char>>,
    names: Seq<Option<Seq<char>>>,
    k: int,
) -> MatchState
    decreases k,
{
    if k <= 0 {
        exact_pass(params, names)
    } else {
        let st = partial_pass(params, names, k - 1);
        let i = k - 1;
        if st.pfa[i] is Some || names[i] is None {
            st
        } else {
            let n = names[i]->0;
            let end = partial_end(params);
            match candidate_from(params, st.bound, n, end, 0) {
                Some(j) => if candidate_from(params, st.bound, n, end, j + 1) is None {
                    MatchState { pfa: st.pfa.update(i, Some(j)), bound: st.bound.update(j, true) }
                } else {
                    st
                },
                None => st,
            }
        }
    }
}

/// First unbound formal at or after `from` and before `end`.
pub open spec fn free_from(bound: Seq<bool>, end: int, from: int) -> int
    decreases end - from,
{
    if from < 0 || from >= end {
        from
    } else if !bound[from] {
        from
    } else {
        free_from(bound, end, from + 1)
    }
}

/// Pass 3 state after the first `k` actuals: the binding state, the next
/// formal to consider, and the named actuals left unmatched.
pub struct PositionalState {
    pub st: MatchState,
    pub next: int,
    pub unmatched: Seq<int>,
}

/// Pass 3: unnamed actuals fill the remaining formals before `...` in order.
pub open spec fn positional_pass(
    params: Seq<Seq<char>>,
    names: Seq<Option<Seq<char>>>,
    k: int,
) -> PositionalState
    decreases k,
{
    if k <= 0 {
        PositionalState {
            st: partial_pass(params, names, names.len() as int),
            next: 0,
            unmatched: seq![],
        }
    } else {
        let prev = positional_pass(params, names, k - 1);
        let i = k - 1;
        if names[i] is Some {
            if prev.st.pfa[i] is None {
                PositionalState { unmatched: prev.unmatched.push(i), ..prev }
            } else {
                prev
            }
        } else {
            let end = partial_end(params);
            let j = free_from(prev.st.bound, end, prev.next);
            if j < end {
                PositionalState {
                    st: MatchState {
                        pfa: prev.st.pfa.update(i, Some(j)),
                        bound: prev.st.bound.update(j, true),
                    },
                    next: j + 1,
                    unmatched: prev.unmatched,
                }
            } else {
                PositionalState { next: j, ..prev }
            }
        }
    }
}

/// The outcome of R argument matching.
#[derive(Debug)]
pub struct ArgumentMatch {
    /// Formal parameter index for each actual argument. `None` means the
    /// argument was unmatched (or was absorbed by `...`).
    pub param_for_arg: Vec<Option<usize>>,
    pub bound_params: Vec<bool>,
    pub unmatched_named: Vec<usize>,
    pub dots: Option<usize>,
}

/// The formal index an optional `usize` names, as an integer.
pub open spec fn opt_int(o: Option<usize>) -> Option<int> {
    match o {
        Some(v) => Some(v as int),
        None => None,
    }
}

/// `m` is exactly R's matching of actuals named `names` against `params`.
pub open spec fn match_spec(
    params: Seq<Seq<char>>,
    names: Seq<Option<Seq<char>>>,
    m: ArgumentMatch,
) -> bool {
    let fin = positional_pass(params, names, names.len() as int);
    &&& m.param_for_arg@.len() == names.len()
    &&& m.bound_params@.len() == params.len()
    &&& forall|i: int| 0 <= i < names.len() ==> opt_int(#[trigger] m.param_for_arg@[i]) == fin.st.pfa[i]
    &&& forall|j: int| 0 <= j < params.len() ==> #[trigger] m.bound_params@[j] == fin.st.bound[j]
    &&& m.unmatched_named@.len() == fin.unmatched.len()
    &&& forall|k: int| 0 <= k < fin.unmatched.len() ==> #[trigger] m.unmatched_named@[k] == fin.unmatched[k]
    &&& opt_int(m.dots) == dots_from(params, 0)
}

/// The named actuals pass 3 leaves unmatched lie among the first `k`.
pub proof fn lemma_unmatched_bound(params: Seq<Seq<char>>, names: Seq<Option<Seq<char>>>, k: int)
    requires
        0 <= k <= names.len(),
    ensures
        forall|j: int|
            0 <= j < positional_pass(params, names, k).unmatched.len() ==> 0 <= #[trigger] positional_pass(
                params,
                names,
                k,
            ).unmatched[j] < k,
    decreases k,
{
    if k > 0 {
        lemma_unmatched_bound(params, names, k - 1);
        let prev = positional_pass(params, names, k - 1);
        let cur = positional_pass(params, names, k);
        assert forall|j: int| 0 <= j < cur.unmatched.len() implies 0 <= #[trigger] cur.unmatched[j] < k by {
            if j < prev.unmatched.len() {
                assert(cur.unmatched[j] == prev.unmatched[j]);
                assert(prev.unmatched[j] < k - 1);
            } else {
                assert(cur.unmatched[j] == k - 1);
            }
        }
    }
}

/// Every unmatched named actual of a match is an actual.
pub proof fn lemma_unmatched_in_range(params: Seq<Seq<char>>, names: Seq<Option<Seq<char>>>, m: ArgumentMatch, k: int)
    requires
        match_spec(params, names, m),
        0 <= k < m.unmatched_named@.len(),
    ensures
        m.unmatched_named@[k] < names.len(),
{
    lemma_unmatched_bound(params, names, names.len() as int);
    let fin = positional_pass(params, names, names.len() as int);
    assert(m.unmatched_named@[k] == fin.unmatched[k]);
}

/// The views of a list of formal names.
pub open spec fn name_views(params: Seq<&str>) -> Seq<Seq<char>> {
    Seq::new(params.len(), |j: int| params[j]@)
}

/// The views of a list of optional actual tags.
pub open spec fn tag_views(names: Seq<Option<String>>) -> Seq<Option<Seq<char>>> {
    Seq::new(
        names.len(),
        |i: int|
            match names[i] {
                Some(n) => Some(n@),
                None => None,
            },
    )
}

/// The tags of a list of actual arguments.
pub open spec fn arg_tags(args: Seq<Arg>) -> Seq<Option<Seq<char>>> {
    Seq::new(
        args.len(),
        |i: int|
            match args[i].name {
                Some(n) => Some(n@),
                None => None,
            },
    )
}

/// The formal indices of a binding vector, as integers.
pub open spec fn pfa_view(v: Seq<Option<usize>>) -> Seq<Option<int>> {
    Seq::new(v.len(), |i: int| opt_int(v[i]))
}

/// Index of the first `...` formal.
fn find_dots(param_names: &[&str]) -> (r: Option<usize>)
    ensures
        opt_int(r) == dots_from(name_views(param_names@), 0),
        r matches Some(d) ==> d < param_names@.len(),
{
    let ghost ps = name_views(param_names@);
    let mut j: usize = 0;
    while j < param_names.len()
        invariant
            j <= param_names@.len(),
            ps == name_views(param_names@),
            dots_from(ps, 0) == dots_from(ps, j as int),
        decreases param_names.len() - j,
    {
        if is_dots(param_names[j]) {
            return Some(j);
        }
        j = j + 1;
    }
    None
}

/// Index of the first formal that is not `...` and equals `name`.
fn find_exact(param_names: &[&str], name: &str) -> (r: Option<usize>)
    ensures
        opt_int(r) == exact_from(name_views(param_names@), name@, 0),
        r matches Some(j) ==> j < param_names@.len(),
{
    let ghost ps = name_views(param_names@);
    let mut j: usize = 0;
    while j < param_names.len()
        invariant
            j <= param_names@.len(),
            ps == name_views(param_names@),
            exact_from(ps, name@, 0) == exact_from(ps, name@, j as int),
        decreases param_names.len() - j,
    {
        if !is_dots(param_names[j]) && str_eq(param_names[j], name) {
            return Some(j);
        }
        j = j + 1;
    }
    None
}

/// First unbound formal in `[from, end)` that `name` is a prefix of.
fn find_candidate(
    param_names: &[&str],
    bound: &Vec<bool>,
    name: &str,
    end: usize,
    from: usize,
) -> (r: Option<usize>)
    requires
        end <= param_names@.len(),
        bound@.len() == param_names@.len(),
    ensures
        opt_int(r) == candidate_from(name_views(param_names@), bound@, name@, end as int, from as int),
        r matches Some(j) ==> from <= j < end,
{
    let ghost ps = name_views(param_names@);
    let mut j: usize = from;
    while j < end
        invariant
            from <= j,
            end <= param_names@.len(),
            bound@.len() == param_names@.len(),
            ps == name_views(param_names@),
            candidate_from(ps, bound@, name@, end as int, from as int) == candidate_from(
                ps,
                bound@,
                name@,
                end as int,
                j as int,
            ),
        decreases end - j,
    {
        if !bound[j] && starts_with(param_names[j], name) {
            return Some(j);
        }
        j = j + 1;
    }
    None
}

/// R's three-pass matching of actuals tagged `names` against the formals
/// `param_names`: exact names (formals after `...` included), unique partial
/// names of formals before `...`, then unnamed actuals positionally.
pub fn match_argument_names(param_names: &[&str], names: &[Option<String>]) -> (r: ArgumentMatch)
    ensures
        match_spec(name_views(param_names@), tag_views(names@), r),
{
    let ghost ps = name_views(param_names@);
    let ghost ns = tag_views(names@);
    let n = names.len();
    let m = param_names.len();
    let dots = find_dots(param_names);
    let partial_end_ix = match dots {
        Some(d) => d,
        None => m,
    };
    assert(partial_end_ix as int == partial_end(ps));
    let mut pfa: Vec<Option<usize>> = Vec::new();
    let mut i: usize = 0;
    while i < n
        invariant
            i <= n,
            n == names@.len(),
            pfa@.len() == i,
            forall|t: int| 0 <= t < i ==> #[trigger] pfa@[t] is None,
        decreases n - i,
    {
        pfa.push(None);
        i = i + 1;
    }
    let mut bound: Vec<bool> = Vec::new();
    let mut j: usize = 0;
    while j < m
        invariant
            j <= m,
            m == param_names@.len(),
            bound@.len() == j,
            forall|t: int| 0 <= t < j ==> !#[trigger] bound@[t],
        decreases m - j,
    {
        bound.push(false);
        j = j + 1;
    }
    // Pass 1: exact names.
    let ghost ex = exact_pass(ps, ns);
    let mut i: usize = 0;
    while i < n
        invariant
            i <= n,
            n == names@.len(),
            m == param_names@.len(),
            ps == name_views(param_names@),
            ns == tag_views(names@),
            ex == exact_pass(ps, ns),
            pfa@.len() == n,
            bound@.len() == m,
            forall|t: int| 0 <= t < i ==> opt_int(#[trigger] pfa@[t]) == ex.pfa[t],
            forall|t: int| i <= t < n ==> #[trigger] pfa@[t] is None,
            forall|t: int| 0 <= t < n ==> (#[trigger] pfa@[t] matches Some(q) ==> q < m),
            forall|q: int|
                0 <= q < m ==> #[trigger] bound@[q] == (exists|t: int|
                    0 <= t < i && ex.pfa[t] == Some(q)),
        decreases n - i,
    {
        match &names[i] {
            Some(name) => {
                let found = find_exact(param_names, name.as_str());
                assert(ns[i as int] == Some(name@));
                match found {
                    Some(q) => {
                        pfa.set(i, Some(q));
                        bound.set(q, true);
                    },
                    None => {},
                }
            },
            None => {},
        }
        assert forall|q: int| 0 <= q < m implies #[trigger] bound@[q] == (exists|t: int|
            0 <= t < i + 1 && ex.pfa[t] == Some(q)) by {
            if bound@[q] {
                if !(exists|t: int| 0 <= t < i && ex.pfa[t] == Some(q)) {
                    assert(ex.pfa[i as int] == Some(q));
                }
            } else {
                assert(ex.pfa[i as int] != Some(q));
            }
        }
        i = i + 1;
    }
    assert(pfa_view(pfa@) =~= ex.pfa);
    assert(bound@ =~= ex.bound);
    // Pass 2: unique partial names before `...`.
    let mut i: usize = 0;
    while i < n
        invariant
            i <= n,
            n == names@.len(),
            m == param_names@.len(),
            ps == name_views(param_names@),
            ns == tag_views(names@),
            partial_end_ix as int == partial_end(ps),
            partial_end_ix <= m,
            pfa@.len() == n,
            bound@.len() == m,
            pfa_view(pfa@) == partial_pass(ps, ns, i as int).pfa,
            bound@ == partial_pass(ps, ns, i as int).bound,
            forall|t: int| 0 <= t < n ==> (#[trigger] pfa@[t] matches Some(q) ==> q < m),
        decreases n - i,
    {
        let ghost st = partial_pass(ps, ns, i as int);
        assert(opt_int(pfa@[i as int]) == st.pfa[i as int]);
        if pfa[i].is_none() {
            match &names[i] {
                Some(name) => {
                    assert(ns[i as int] == Some(name@));
                    let first = find_candidate(param_names, &bound, name.as_str(), partial_end_ix, 0);
                    match first {
                        Some(q) => {
                            let second = find_candidate(
                                param_names,
                                &bound,
                                name.as_str(),
                                partial_end_ix,
                                q + 1,
                            );
                            if second.is_none() {
                                pfa.set(i, Some(q));
                                bound.set(q, true);
                            }
                        },
                        None => {},
                    }
                },
                None => {},
            }
        }
        assert(pfa_view(pfa@) =~= partial_pass(ps, ns, i + 1).pfa);
        assert(bound@ =~= partial_pass(ps, ns, i + 1).bound);
        i = i + 1;
    }
    // Pass 3: positional.
    let mut unmatched: Vec<usize> = Vec::new();
    let mut next: usize = 0;
    let mut i: usize = 0;
    while i < n
        invariant
            i <= n,
            n == names@.len(),
            m == param_names@.len(),
            ps == name_views(param_names@),
            ns == tag_views(names@),
            partial_end_ix as int == partial_end(ps),
            partial_end_ix <= m,
            pfa@.len() == n,
            bound@.len() == m,
            pfa_view(pfa@) == positional_pass(ps, ns, i as int).st.pfa,
            bound@ == positional_pass(ps, ns, i as int).st.bound,
            next as int == positional_pass(ps, ns, i as int).next,
            unmatched@ == positional_pass(ps, ns, i as int).unmatched.map_values(|u: int| u as usize),
            forall|k: int| 0 <= k < unmatched@.len() ==> #[trigger] unmatched@[k] < n,
            positional_pass(ps, ns, i as int).unmatched.len() == unmatched@.len(),
            forall|k: int|
                0 <= k < unmatched@.len() ==> #[trigger] positional_pass(
                    ps,
                    ns,
                    i as int,
                ).unmatched[k] == unmatched@[k] as int,
            next <= m,
        decreases n - i,
    {
        let ghost prev = positional_pass(ps, ns, i as int);
        assert(opt_int(pfa@[i as int]) == prev.st.pfa[i as int]);
        if names[i].is_some() {
            if pfa[i].is_none() {
                unmatched.push(i);
            }
        } else {
            let ghost start = next;
            while next < partial_end_ix && bound[next]
                invariant
                    start <= next,
                    next <= m,
                    partial_end_ix <= m,
                    bound@.len() == m,
                    free_from(bound@, partial_end_ix as int, start as int) == free_from(
                        bound@,
                        partial_end_ix as int,
                        next as int,
                    ),
                decreases m - next,
            {
                next = next + 1;
            }
            if next < partial_end_ix {
                pfa.set(i, Some(next));
                bound.set(next, true);
                next = next + 1;
            }
        }
        let ghost cur = positional_pass(ps, ns, i + 1);
        assert(pfa_view(pfa@) =~= cur.st.pfa);
        assert(bound@ =~= cur.st.bound);
        assert(unmatched@ =~= cur.unmatched.map_values(|u: int| u as usize));
        i = i + 1;
    }
    let r = ArgumentMatch { param_for_arg: pfa, bound_params: bound, unmatched_named: unmatched, dots };
    let ghost fin = positional_pass(ps, ns, n as int);
    assert forall|t: int| 0 <= t < n implies opt_int(#[trigger] r.param_for_arg@[t]) == fin.st.pfa[t] by {
        assert(pfa_view(r.param_for_arg@)[t] == opt_int(r.param_for_arg@[t]));
    }
    r
}

/// The tags of `args`, in order.
fn collect_tags(args: &[Arg]) -> (r: Vec<Option<String>>)
    ensures
        tag_views(r@) == arg_tags(args@),
{
    let mut tags: Vec<Option<String>> = Vec::new();
    let mut i: usize = 0;
    while i < args.len()
        invariant
            i <= args@.len(),
            tags@.len() == i,
            forall|t: int|
                0 <= t < i ==> (match (#[trigger] tags@[t], args@[t].name) {
                    (Some(a), Some(b)) => a@ == b@,
                    (None, None) => true,
                    _ => false,
                }),
        decreases args.len() - i,
    {
        let tag = match &args[i].name {
            Some(n) => Some(n.clone()),
            None => None,
        };
        tags.push(tag);
        i = i + 1;
    }
    assert(tag_views(tags@) =~= arg_tags(args@));
    tags
}

/// Match the actual arguments `args` against the formals `param_names`
/// (see `match_argument_names`).
pub fn match_arguments(param_names: &[&str], args: &[Arg]) -> (r: ArgumentMatch)
    ensures
        match_spec(name_views(param_names@), arg_tags(args@), r),
{
    let tags = collect_tags(args);
    match_argument_names(param_names, tags.as_slice())
}

/// The first position of `Some(formal)` in a binding vector.
pub open spec fn first_binding(pfa: Seq<Option<usize>>, formal: int, from: int) -> Option<int>
    decreases pfa.len() - from,
{
    if from < 0 || from >= pfa.len() {
        None
    } else if opt_int(pfa[from]) == Some(formal) {
        Some(from)
    } else {
        first_binding(pfa, formal, from + 1)
    }
}

impl ArgumentMatch {
    /// The actual argument bound to formal `formal_index`: the first actual
    /// whose binding names it (repeated names bind the first actual).
    pub fn arg_for_param(&self, formal_index: usize) -> (r: Option<usize>)
        ensures
            opt_int(r) == first_binding(self.param_for_arg@, formal_index as int, 0),
            r matches Some(i) ==> i < self.param_for_arg@.len(),
    {
        let mut i: usize = 0;
        while i < self.param_for_arg.len()
            invariant
                i <= self.param_for_arg@.len(),
                first_binding(self.param_for_arg@, formal_index as int, 0) == first_binding(
                    self.param_for_arg@,
                    formal_index as int,
                    i as int,
                ),
            decreases self.param_for_arg.len() - i,
        {
            if self.param_for_arg[i] == Some(formal_index) {
                return Some(i);
            }
            i = i + 1;
        }
        None
    }
}

/// Levenshtein distance between two character sequences.
pub open spec fn lev(a: Seq<char>, b: Seq<char>) -> nat
    decreases a.len() + b.len(),
{
    if a.len() == 0 {
        b.len()
    } else if b.len() == 0 {
        a.len()
    } else {
        let del = lev(a.drop_last(), b) + 1;
        let ins = lev(a, b.drop_last()) + 1;
        let sub = lev(a.drop_last(), b.drop_last()) + if a.last() != b.last() {
            1nat
        } else {
            0nat
        };
        if del <= ins && del <= sub {
            del
        } else if ins <= sub {
            ins
        } else {
            sub
        }
    }
}

/// The Levenshtein distance is at most the sum of the lengths.
pub proof fn lemma_lev_bound(a: Seq<char>, b: Seq<char>)
    ensures
        lev(a, b) <= a.len() + b.len(),
    decreases a.len() + b.len(),
{
    if a.len() > 0 && b.len() > 0 {
        lemma_lev_bound(a.drop_last(), b);
    }
}

/// Levenshtein distance between `left` and `right`, by characters.
pub fn edit_distance(left: &str, right: &str) -> (r: usize)
    requires
        left@.len() + right@.len() <= usize::MAX,
    ensures
        r == lev(left@, right@),
{
    let n = left.unicode_len();
    let m = right.unicode_len();
    let mut previous: Vec<usize> = Vec::new();
    let mut j: usize = 0;
    while j < m
        invariant
            j <= m,
            m == right@.len(),
            n == left@.len(),
            n + m <= usize::MAX,
            previous@.len() == j,
            forall|k: int| 0 <= k < j ==> #[trigger] previous@[k] == lev(left@.take(0), right@.take(k)),
        decreases m - j,
    {
        proof {
            assert(left@.take(0).len() == 0);
        }
        previous.push(j);
        j = j + 1;
    }
    proof {
        assert(left@.take(0).len() == 0);
    }
    previous.push(m);
    let mut i: usize = 0;
    while i < n
        invariant
            i <= n,
            m == right@.len(),
            n == left@.len(),
            n + m <= usize::MAX,
            previous@.len() == m + 1,
            forall|k: int|
                0 <= k <= m ==> #[trigger] previous@[k] == lev(left@.take(i as int), right@.take(k)),
        decreases n - i,
    {
        let c = left.get_char(i);
        let ghost a = left@.take(i + 1);
        assert(a.drop_last() =~= left@.take(i as int));
        assert(a.last() == c);
        let mut current: Vec<usize> = Vec::new();
        proof {
            assert(a.len() > 0);
            assert(right@.take(0).len() == 0);
        }
        current.push(i + 1);
        let mut k: usize = 0;
        while k < m
            invariant
                k <= m,
                i < n,
                m == right@.len(),
                n == left@.len(),
                n + m <= usize::MAX,
                a == left@.take(i + 1),
                a.drop_last() == left@.take(i as int),
                a.last() == c,
                previous@.len() == m + 1,
                forall|q: int|
                    0 <= q <= m ==> #[trigger] previous@[q] == lev(left@.take(i as int), right@.take(q)),
                current@.len() == k + 1,
                forall|q: int| 0 <= q <= k ==> #[trigger] current@[q] == lev(a, right@.take(q)),
            decreases m - k,
        {
            let d = right.get_char(k);
            let ghost b = right@.take(k + 1);
            assert(b.drop_last() =~= right@.take(k as int));
            assert(b.last() == d);
            proof {
                lemma_lev_bound(a, right@.take(k as int));
                lemma_lev_bound(left@.take(i as int), b);
                lemma_lev_bound(left@.take(i as int), right@.take(k as int));
            }
            let substitution = previous[k] + if c != d {
                1usize
            } else {
                0usize
            };
            let del = previous[k + 1] + 1;
            let ins = current[k] + 1;
            let best = if ins <= del && ins <= substitution {
                ins
            } else if del <= substitution {
                del
            } else {
                substitution
            };
            assert(best == lev(a, b));
            current.push(best);
            k = k + 1;
        }
        previous = current;
        i = i + 1;
    }
    assert(left@.take(n as int) =~= left@);
    assert(right@.take(m as int) =~= right@);
    previous[m]
}

/// Formal `j` is a spelling suggestion for `arg`: not `...`, and within
/// edit distance two.
pub open spec fn near(arg: Seq<char>, ps: Seq<Seq<char>>, j: int) -> bool {
    0 <= j < ps.len() && ps[j] != dots_text() && lev(arg, ps[j]) <= 2
}

/// Formal `j` is the single closest suggestion for `arg`.
pub open spec fn unique_closest(arg: Seq<char>, ps: Seq<Seq<char>>, j: int) -> bool {
    &&& near(arg, ps, j)
    &&& forall|k: int| k != j && #[trigger] near(arg, ps, k) ==> lev(arg, ps[k]) > lev(arg, ps[j])
}

/// The formal to suggest for a misspelled argument tag: the single formal
/// (other than `...`) at the smallest edit distance, when that distance is
/// at most two. Ties suggest nothing.
pub fn closest_parameter<'a>(argument: &str, parameters: &[&'a str]) -> (r: Option<&'a str>)
    requires
        forall|j: int|
            0 <= j < parameters@.len() ==> argument@.len() + (#[trigger] parameters@[j])@.len()
                <= usize::MAX,
    ensures
        r is Some == (exists|j: int| unique_closest(argument@, name_views(parameters@), j)),
        r matches Some(p) ==> exists|j: int|
            #![trigger parameters@[j]]
            unique_closest(argument@, name_views(parameters@), j) && parameters@[j] == p,
{
    let ghost ps = name_views(parameters@);
    let ghost arg = argument@;
    let mut closest: Option<usize> = None;
    let mut minimum: usize = 0;
    let mut tied = false;
    let mut i: usize = 0;
    while i < parameters.len()
        invariant
            i <= parameters@.len(),
            ps == name_views(parameters@),
            arg == argument@,
            forall|j: int|
                0 <= j < parameters@.len() ==> argument@.len() + (#[trigger] parameters@[j])@.len()
                    <= usize::MAX,
            closest is None ==> forall|k: int| 0 <= k < i ==> !#[trigger] near(arg, ps, k),
            closest matches Some(c) ==> {
                &&& c < i
                &&& near(arg, ps, c as int)
                &&& minimum == lev(arg, ps[c as int])
                &&& forall|k: int| 0 <= k < i && #[trigger] near(arg, ps, k) ==> lev(arg, ps[k]) >= minimum
                &&& tied == exists|k: int| 0 <= k < i && k != c && #[trigger] near(arg, ps, k) && lev(arg, ps[k]) == minimum
            },
        decreases parameters.len() - i,
    {
        let parameter = parameters[i];
        assert(ps[i as int] == parameter@);
        let mut distance: usize = 3;
        if !is_dots(parameter) {
            distance = edit_distance(argument, parameter);
        }
        let is_near = !is_dots(parameter) && distance <= 2;
        assert(is_near == near(arg, ps, i as int));
        if is_near {
            match closest {
                None => {
                    closest = Some(i);
                    minimum = distance;
                    tied = false;
                },
                Some(c) => {
                    if distance < minimum {
                        closest = Some(i);
                        minimum = distance;
                        tied = false;
                    } else if distance == minimum {
                        tied = true;
                    }
                },
            }
        }
        i = i + 1;
    }
    match closest {
        Some(c) => {
            if tied {
                assert forall|j: int| !unique_closest(arg, ps, j) by {
                    let k = choose|k: int| 0 <= k < i && k != c && #[trigger] near(arg, ps, k) && lev(arg, ps[k]) == minimum;
                    if j == c as int {
                        assert(near(arg, ps, k));
                    } else if near(arg, ps, j) {
                        assert(near(arg, ps, c as int));
                    }
                }
                None
            } else {
                assert(unique_closest(arg, ps, c as int));
                Some(parameters[c])
            }
        },
        None => {
            None
        },
    }
}

} // verus!
