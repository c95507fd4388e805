//! Call-site facts read from syntax: callee names, `foreach` iteration
//! variables, injected string names, `sprintf` conversion counts, `rep`
//! counts and argument lookup, and the shape of `ifelse` branches.
use vstd::prelude::*;
use crate::ast::{Arg, Expr, UnaryOpKind, ident_is, is_ident_named};
use crate::condition::{comparison_spec, is_comparison};
use crate::matching::ArgumentMatch;
use crate::text::str_eq;
use crate::types::{Mode, RType};

verus! {

/// The views of a list of strings.
pub open spec fn views(v: Seq<String>) -> Seq<Seq<char>> {
    v.map_values(|s: String| s@)
}

/// A user infix operator name: longer than two characters, between `%`s.
pub open spec fn user_infix_spec(s: Seq<char>) -> bool {
    s.len() > 2 && s[0] == '%' && s[s.len() - 1] == '%'
}

/// Whether `name` is a user-defined infix operator such as `%+%`.
pub fn is_user_infix_name(name: &str) -> (r: bool)
    ensures
        r == user_infix_spec(name@),
{
    let n = name.unicode_len();
    n > 2 && name.get_char(0) == '%' && name.get_char(n - 1) == '%'
}

/// The callee name of a direct call: an identifier or a string head.
pub open spec fn callee_spec(func: Expr) -> Option<Seq<char>> {
    match func {
        Expr::Ident { name, .. } => Some(name@),
        Expr::String(s, _) => Some(s@),
        _ => None,
    }
}

/// The name a call head spells, if it spells one.
pub fn callee_name(func: &Expr) -> (r: Option<String>)
    ensures
        match r {
            Some(s) => callee_spec(*func) == Some(s@),
            None => callee_spec(*func) is None,
        },
{
    match func {
        Expr::Ident { name, .. } => Some(name.clone()),
        Expr::String(s, _) => Some(s.clone()),
        _ => None,
    }
}

/// The argument names of a `foreach(...)` call that bind iteration
/// variables: every name not starting with `.`, in order.
pub open spec fn foreach_names(args: Seq<Arg>) -> Seq<Seq<char>>
    decreases args.len(),
{
    if args.len() == 0 {
        seq![]
    } else {
        let last = args.last();
        foreach_names(args.drop_last()) + match last.name {
            Some(n) => if n@.len() > 0 && n@[0] == '.' {
                seq![]
            } else {
                seq![n@]
            },
            None => seq![],
        }
    }
}

/// The iteration variables a `foreach` expression binds: a `foreach(...)`
/// call binds its argument names; `a %:% b` nests two of them; anything
/// else is not a `foreach` expression.
pub open spec fn foreach_spec(e: Expr) -> Option<Seq<Seq<char>>>
    decreases e,
{
    match e {
        Expr::Call { func, args, .. } => if is_ident_named(*func, "foreach"@) {
            Some(foreach_names(args@))
        } else if is_ident_named(*func, "%:%"@) && args@.len() == 2 {
            match (foreach_spec(args@[0].value), foreach_spec(args@[1].value)) {
                (Some(a), Some(b)) => Some(a + b),
                _ => None,
            }
        } else {
            None
        },
        _ => None,
    }
}

/// The iteration variables of a `foreach` expression (see `foreach_spec`).
pub fn foreach_iteration_bindings(expression: &Expr) -> (r: Option<Vec<String>>)
    ensures
        match r {
            Some(v) => foreach_spec(*expression) == Some(views(v@)),
            None => foreach_spec(*expression) is None,
        },
    decreases expression,
{
    match expression {
        Expr::Call { func, args, .. } => {
            if ident_is(func, "foreach") {
                let mut out: Vec<String> = Vec::new();
                let mut i: usize = 0;
                while i < args.len()
                    invariant
                        i <= args@.len(),
                        views(out@) == foreach_names(args@.take(i as int)),
                    decreases args.len() - i,
                {
                    assert(args@.take(i + 1).drop_last() =~= args@.take(i as int));
                    let ghost before = out@;
                    match &args[i].name {
                        Some(n) => {
                            if !(n.unicode_len() > 0 && n.as_str().get_char(0) == '.') {
                                out.push(n.clone());
                                assert(views(out@) =~= views(before) + seq![n@]);
                            } else {
                                assert(views(out@) =~= views(before) + seq![]);
                            }
                        },
                        None => {
                            assert(views(out@) =~= views(before) + seq![]);
                        },
                    }
                    i = i + 1;
                }
                assert(args@.take(args@.len() as int) =~= args@);
                Some(out)
            } else if ident_is(func, "%:%") && args.len() == 2 {
                proof {
                    crate::ast::lemma_call_arg_decreases(*expression, 0);
                    crate::ast::lemma_call_arg_decreases(*expression, 1);
                }
                let mut first = match foreach_iteration_bindings(&args[0].value) {
                    Some(v) => v,
                    None => return None,
                };
                let mut second = match foreach_iteration_bindings(&args[1].value) {
                    Some(v) => v,
                    None => return None,
                };
                let ghost a = first@;
                let ghost b = second@;
                first.append(&mut second);
                assert(views(first@) =~= views(a) + views(b));
                Some(first)
            } else {
                None
            }
        },
        _ => None,
    }
}

/// The names a string-injection expression supplies: a string names
/// itself; `c(...)` concatenates its arguments' names; anything else
/// supplies none.
pub open spec fn injected_spec(e: Expr) -> Seq<Seq<char>>
    decreases e, 0int,
{
    match e {
        Expr::String(s, _) => seq![s@],
        Expr::Call { func, args, .. } => if is_ident_named(*func, "c"@) {
            injected_args(args@)
        } else {
            seq![]
        },
        _ => seq![],
    }
}

/// The injected names of argument values, concatenated.
pub open spec fn injected_args(args: Seq<Arg>) -> Seq<Seq<char>>
    decreases args, 0int,
{
    if args.len() == 0 {
        seq![]
    } else {
        injected_args(args.subrange(0, args.len() - 1)) + injected_spec(args[args.len() - 1].value)
    }
}

/// The string names an injection expression supplies (see `injected_spec`).
pub fn injected_string_bindings(expression: &Expr) -> (r: Vec<String>)
    ensures
        views(r@) == injected_spec(*expression),
    decreases expression, 0int,
{
    match expression {
        Expr::String(name, _) => {
            let mut v: Vec<String> = Vec::new();
            v.push(name.clone());
            assert(views(v@) =~= seq![name@]);
            v
        },
        Expr::Call { func, args, .. } => {
            let mut out: Vec<String> = Vec::new();
            if !ident_is(func, "c") {
                assert(views(out@) =~= seq![]);
                return out;
            }
            let mut i: usize = 0;
            assert(args@.take(0) =~= Seq::<Arg>::empty());
            assert(views(out@) =~= injected_args(args@.take(0)));
            while i < args.len()
                invariant
                    i <= args@.len(),
                    *expression matches Expr::Call { args: a, .. } && a == *args,
                    views(out@) == injected_args(args@.take(i as int)),
                decreases args.len() - i,
            {
                proof {
                    crate::ast::lemma_call_arg_decreases(*expression, i as int);
                }
                let mut inner = injected_string_bindings(&args[i].value);
                let ghost before = out@;
                let ghost iv = inner@;
                out.append(&mut inner);
                proof {
                    let t = args@.take(i + 1);
                    assert(t.subrange(0, t.len() - 1) =~= args@.take(i as int));
                    assert(t[t.len() - 1] == args@[i as int]);
                    assert(views(out@) =~= views(before) + views(iv));
                }
                i = i + 1;
            }
            assert(args@.take(args@.len() as int) =~= args@);
            out
        },
        _ => {
            let v: Vec<String> = Vec::new();
            assert(views(v@) =~= seq![]);
            v
        },
    }
}

/// An ASCII letter.
pub open spec fn ascii_letter(c: char) -> bool {
    ('a' <= c && c <= 'z') || ('A' <= c && c <= 'Z')
}

/// The conversions of a `sprintf` format from position `i`, with `count`
/// found so far: `%%` is a literal percent, a `%` conversion ends at its
/// first letter, and a `*` or `$` inside a conversion makes the count
/// unknowable.
pub open spec fn printf_from(s: Seq<char>, i: int, count: nat) -> Option<nat>
    decreases s.len() - i, 1int,
{
    if i < 0 || i >= s.len() {
        Some(count)
    } else if s[i] != '%' {
        printf_from(s, i + 1, count)
    } else if i + 1 < s.len() && s[i + 1] == '%' {
        printf_from(s, i + 2, count)
    } else {
        printf_conversion(s, i + 1, count)
    }
}

/// The rest of a conversion that started before position `j`.
pub open spec fn printf_conversion(s: Seq<char>, j: int, count: nat) -> Option<nat>
    decreases s.len() - j, 0int,
{
    if j < 0 || j >= s.len() {
        Some(count)
    } else if s[j] == '*' || s[j] == '$' {
        None
    } else if ascii_letter(s[j]) {
        printf_from(s, j + 1, count + 1)
    } else {
        printf_conversion(s, j + 1, count)
    }
}

/// How many arguments a `sprintf` format consumes, if it can be counted.
pub fn printf_argument_count(format: &str) -> (r: Option<usize>)
    ensures
        match r {
            Some(n) => printf_from(format@, 0, 0) == Some(n as nat),
            None => printf_from(format@, 0, 0) is None,
        },
{
    let n = format.unicode_len();
    let mut index: usize = 0;
    let mut count: usize = 0;
    while index < n
        invariant
            n == format@.len(),
            index <= n,
            count <= index,
            printf_from(format@, 0, 0) == printf_from(format@, index as int, count as nat),
        decreases n - index,
    {
        if format.get_char(index) != '%' {
            index = index + 1;
        } else if index + 1 < n && format.get_char(index + 1) == '%' {
            index = index + 2;
        } else {
            index = index + 1;
            let ghost start = index;
            let mut done = false;
            while index < n && !done
                invariant
                    n == format@.len(),
                    start <= index <= n,
                    count <= index,
                    !done ==> printf_from(format@, 0, 0) == printf_conversion(
                        format@,
                        index as int,
                        count as nat,
                    ),
                    done ==> printf_from(format@, 0, 0) == printf_from(
                        format@,
                        index as int,
                        count as nat,
                    ),
                decreases n - index, if done { 0int } else { 1int },
            {
                let c = format.get_char(index);
                if c == '*' || c == '$' {
                    return None;
                }
                index = index + 1;
                if ('a' <= c && c <= 'z') || ('A' <= c && c <= 'Z') {
                    count = count + 1;
                    done = true;
                }
            }
        }
    }
    Some(count)
}

/// Whether `e` is the literal `FALSE`.
pub open spec fn false_literal(e: Expr) -> bool {
    match e {
        Expr::Logical(b, _) => !b,
        _ => false,
    }
}

/// Argument `i` is bound to the formal `portable` and is the literal `FALSE`.
pub open spec fn portable_false_at(args: Seq<Arg>, params: Seq<&str>, pfa: Seq<Option<usize>>, i: int) -> bool {
    match pfa[i] {
        Some(p) => p < params.len() && params[p as int]@ == "portable"@ && false_literal(args[i].value),
        None => false,
    }
}

/// Whether an `R6Class()` call passes a literal `portable = FALSE`.
pub open spec fn non_portable_spec(args: Seq<Arg>, params: Seq<&str>, pfa: Seq<Option<usize>>) -> bool {
    exists|i: int| 0 <= i < args.len() && #[trigger] portable_false_at(args, params, pfa, i)
}

/// Whether an `R6Class()` call opts out of R6's portable evaluation model.
pub fn r6_call_is_non_portable(args: &[Arg], params: &[&str], matches: &ArgumentMatch) -> (r: bool)
    requires
        matches.param_for_arg@.len() == args@.len(),
    ensures
        r == non_portable_spec(args@, params@, matches.param_for_arg@),
{
    let mut i: usize = 0;
    while i < args.len()
        invariant
            i <= args@.len(),
            matches.param_for_arg@.len() == args@.len(),
            forall|k: int|
                0 <= k < i ==> !#[trigger] portable_false_at(args@, params@, matches.param_for_arg@, k),
        decreases args.len() - i,
    {
        match matches.param_for_arg[i] {
            Some(p) => {
                if p < params.len() && str_eq(params[p], "portable") {
                    if let Expr::Logical(false, _) = &args[i].value {
                        assert(portable_false_at(args@, params@, matches.param_for_arg@, i as int));
                        return true;
                    }
                }
            },
            None => {},
        }
        i = i + 1;
    }
    false
}

/// A `rep` repetition count: an absent argument is R's default of one; a
/// nonnegative literal counts itself; anything else has no count.
pub fn rep_count(value: Option<Option<i64>>) -> (r: Option<usize>)
    ensures
        r == match value {
            None => Some(1usize),
            Some(Some(n)) => if 0 <= n && n <= usize::MAX {
                Some(n as usize)
            } else {
                None
            },
            Some(None) => None,
        },
{
    match value {
        None => Some(1),
        Some(Some(n)) => {
            if n >= 0 && (n as u64) <= (usize::MAX as u64) {
                Some(n as usize)
            } else {
                None
            }
        },
        Some(None) => None,
    }
}

/// How many of `args[..k]` are unnamed.
pub open spec fn unnamed_before(args: Seq<Arg>, k: int) -> nat
    decreases k,
{
    if k <= 0 || k > args.len() {
        0
    } else {
        unnamed_before(args, k - 1) + if args[k - 1].name is None {
            1nat
        } else {
            0nat
        }
    }
}

/// Whether argument `a` is named `name`.
pub open spec fn named_as(a: Arg, name: Seq<char>) -> bool {
    match a.name {
        Some(n) => n@ == name,
        None => false,
    }
}

/// The argument for a parameter: the first argument named exactly `name`,
/// else the `pos`-th unnamed argument.
pub open spec fn find_arg_spec(args: Seq<Arg>, name: Seq<char>, pos: int, r: Option<usize>) -> bool {
    if exists|i: int| 0 <= i < args.len() && #[trigger] named_as(args[i], name) {
        match r {
            Some(i) => i < args.len() && named_as(args[i as int], name) && forall|k: int|
                0 <= k < i ==> !#[trigger] named_as(args[k], name),
            None => false,
        }
    } else {
        match r {
            Some(i) => i < args.len() && args[i as int].name is None && unnamed_before(args, i as int)
                == pos,
            None => forall|k: int|
                0 <= k < args.len() && (#[trigger] args[k]).name is None ==> unnamed_before(args, k)
                    != pos,
        }
    }
}

/// Find the argument for a named parameter.
pub fn find_arg(args: &[Arg], name: &str, pos: usize) -> (r: Option<usize>)
    ensures
        find_arg_spec(args@, name@, pos as int, r),
{
    let mut i: usize = 0;
    while i < args.len()
        invariant
            i <= args@.len(),
            forall|k: int| 0 <= k < i ==> !#[trigger] named_as(args@[k], name@),
        decreases args.len() - i,
    {
        match &args[i].name {
            Some(n) => {
                if str_eq(n.as_str(), name) {
                    return Some(i);
                }
            },
            None => {},
        }
        i = i + 1;
    }
    let mut idx: usize = 0;
    let mut j: usize = 0;
    while j < args.len()
        invariant
            j <= args@.len(),
            idx == unnamed_before(args@, j as int),
            idx <= j,
            forall|k: int| 0 <= k < args@.len() ==> !#[trigger] named_as(args@[k], name@),
            forall|k: int|
                0 <= k < j && (#[trigger] args@[k]).name is None ==> unnamed_before(args@, k) != pos,
        decreases args.len() - j,
    {
        if args[j].name.is_none() {
            if idx == pos {
                return Some(j);
            }
            idx = idx + 1;
        }
        j = j + 1;
    }
    None
}

/// The atomic modes whose loss to a logical collapse is observable.
pub open spec fn atomic_branch_spec(m: Mode) -> bool {
    m == Mode::Integer || m == Mode::Double || m == Mode::Complex || m == Mode::Character || m
        == Mode::Raw
}

/// Whether a branch mode is atomic and not logical.
pub fn is_atomic_branch_mode(mode: Mode) -> (r: bool)
    ensures
        r == atomic_branch_spec(mode),
{
    match mode {
        Mode::Integer | Mode::Double | Mode::Complex | Mode::Character | Mode::Raw => true,
        _ => false,
    }
}

/// The non-logical atomic mode every branch shares, if any.
pub open spec fn shared_mode_spec(ts: Seq<&RType>) -> Option<Mode> {
    if ts.len() > 0 && atomic_branch_spec(ts[0].mode) && forall|i: int|
        0 <= i < ts.len() ==> (#[trigger] ts[i]).mode == ts[0].mode {
        Some(ts[0].mode)
    } else {
        None
    }
}

/// The single atomic mode shared by every value branch of `ifelse`.
pub fn shared_branch_mode(value_types: &[&RType]) -> (r: Option<Mode>)
    ensures
        r == shared_mode_spec(value_types@),
{
    if value_types.len() == 0 {
        return None;
    }
    let branch_mode = value_types[0].mode;
    if !is_atomic_branch_mode(branch_mode) {
        return None;
    }
    let mut i: usize = 0;
    while i < value_types.len()
        invariant
            i <= value_types@.len(),
            value_types@.len() > 0,
            branch_mode == value_types@[0].mode,
            forall|k: int| 0 <= k < i ==> (#[trigger] value_types@[k]).mode == branch_mode,
        decreases value_types.len() - i,
    {
        if value_types[i].mode != branch_mode {
            return None;
        }
        i = i + 1;
    }
    Some(branch_mode)
}

/// `e` under its leading `!` operators.
pub open spec fn strip_spec(e: Expr) -> Expr
    decreases e,
{
    match e {
        Expr::UnaryOp { op: UnaryOpKind::Not, expr, .. } => strip_spec(*expr),
        _ => e,
    }
}

/// Strip any leading unary `!` operators.
pub fn strip_negation(expr: &Expr) -> (r: &Expr)
    ensures
        *r == strip_spec(*expr),
    decreases expr,
{
    match expr {
        Expr::UnaryOp { op: UnaryOpKind::Not, expr: next, .. } => strip_negation(next),
        _ => expr,
    }
}

/// A test that is `NA` for every input: a literal `NA`, or a comparison
/// with a literal `NA` operand, under any number of `!`.
pub open spec fn definitely_na_spec(e: Expr) -> bool {
    match strip_spec(e) {
        Expr::Na(..) => true,
        Expr::BinOp { op, lhs, rhs, .. } => comparison_spec(op) && (*lhs is Na || *rhs is Na),
        _ => false,
    }
}

/// Whether a test expression is definitely all-`NA`.
pub fn test_definitely_na(expr: &Expr) -> (r: bool)
    ensures
        r == definitely_na_spec(*expr),
{
    match strip_negation(expr) {
        Expr::Na(..) => true,
        Expr::BinOp { op, lhs, rhs, .. } => {
            is_comparison(*op) && (matches!(**lhs, Expr::Na(..)) || matches!(**rhs, Expr::Na(..)))
        },
        _ => false,
    }
}

} // verus!
