//! What constructor calls and stub signatures give: `c(...)`,
//! `data.frame(...)`, and the declared return of a stub applied to the
//! inferred argument types.
use vstd::prelude::*;
use crate::ast::{Arg, Expr};
use crate::checker::Checker;
use crate::literals::{build_named_schema, longest_arg_length, longest_spec, named_schema_spec};
use crate::matching::semantic_argument_name;
use crate::text::str_eq;
use crate::construct::list_schema_spec;
use crate::types::{
    ClassVector, ColumnSchema, Length, Mode, RType, class_eq, copy_class, copy_type, is_plain_type, is_unknown_type, join_of,
    ty_eq,
};
use crate::typeshed::{FunctionSig, ParamSpec, ReturnLength, ReturnMode, ReturnSpec, bound_actual, match_args_to_params};

verus! {

/// The place of an atomic mode, or of a list, in `c()`'s coercion order.
pub open spec fn c_rank(m: Mode) -> int {
    match m {
        Mode::Raw => 0,
        Mode::Logical => 1,
        Mode::Integer => 2,
        Mode::Double => 3,
        Mode::Complex => 4,
        Mode::Character => 5,
        _ => 6,
    }
}

/// The mode `c()` gives when it adds an argument of mode `m` to values of
/// mode `acc`: `NULL` adds nothing, an opaque side (a union counts as
/// opaque) makes the result opaque, a function makes a list, and otherwise
/// the later of the two in the order raw, logical, integer, double,
/// complex, character, list.
pub open spec fn c_step(acc: Mode, m: Mode) -> Mode {
    let m = if m == Mode::Union {
        Mode::Opaque
    } else if m == Mode::Function {
        Mode::List
    } else {
        m
    };
    if acc == Mode::Null {
        m
    } else if m == Mode::Null {
        acc
    } else if acc == Mode::Opaque || m == Mode::Opaque {
        Mode::Opaque
    } else if c_rank(acc) >= c_rank(m) {
        acc
    } else {
        m
    }
}

/// The mode `c()` gives for arguments of types `ts`.
pub open spec fn c_mode(ts: Seq<RType>) -> Mode
    decreases ts.len(),
{
    if ts.len() == 0 {
        Mode::Null
    } else {
        c_step(c_mode(ts.drop_last()), ts.last().mode)
    }
}

/// The total length of `c()`'s arguments: `None` when one has no known
/// length or the total leaves `usize`.
pub open spec fn c_total(ts: Seq<RType>) -> Option<int>
    decreases ts.len(),
{
    if ts.len() == 0 {
        Some(0)
    } else {
        match c_total(ts.drop_last()) {
            Some(t) => {
                let n = match ts.last().length {
                    Length::Zero => Some(0int),
                    Length::One => Some(1int),
                    Length::Known(k) => Some(k as int),
                    _ => None,
                };
                match n {
                    Some(k) => if t + k <= usize::MAX {
                        Some(t + k)
                    } else {
                        None
                    },
                    None => None,
                }
            },
            None => None,
        }
    }
}

/// Whether an argument's value is unknown syntax or an empty slot.
pub open spec fn opaque_slot(a: Arg) -> bool {
    a.value is Unknown || a.value is Missing
}

/// The length `c()` gives.
pub open spec fn c_length(args: Seq<Arg>, ts: Seq<RType>) -> Length {
    if exists|i: int| 0 <= i < args.len() && #[trigger] opaque_slot(args[i]) {
        Length::Unknown
    } else {
        match c_total(ts) {
            Some(t) => Length::Known(t as usize),
            None => Length::Unknown,
        }
    }
}

/// What `c(...)` gives: `NULL` without arguments; else a vector of
/// `c_mode` and `c_length`, with an unknown class when the mode is opaque.
pub open spec fn c_result(args: Seq<Arg>, ts: Seq<RType>, r: RType) -> bool {
    if ts.len() == 0 {
        is_plain_type(r, Mode::Null, Length::Zero)
    } else if c_mode(ts) == Mode::Opaque {
        &&& r.mode == Mode::Opaque
        &&& r.length == c_length(args, ts)
        &&& !r.class.known
        &&& r.class.names@.len() == 0
        &&& r.members is None
        &&& r.columns is None
    } else {
        is_plain_type(r, c_mode(ts), c_length(args, ts))
    }
}

fn c_step_exec(acc: Mode, m: Mode) -> (r: Mode)
    ensures
        r == c_step(acc, m),
{
    let m = if m == Mode::Union {
        Mode::Opaque
    } else if m == Mode::Function {
        Mode::List
    } else {
        m
    };
    let rank = |x: Mode| -> (k: u8)
        ensures
            k as int == c_rank(x),
        {
            match x {
                Mode::Raw => 0,
                Mode::Logical => 1,
                Mode::Integer => 2,
                Mode::Double => 3,
                Mode::Complex => 4,
                Mode::Character => 5,
                _ => 6,
            }
        };
    if acc == Mode::Null {
        m
    } else if m == Mode::Null {
        acc
    } else if acc == Mode::Opaque || m == Mode::Opaque {
        Mode::Opaque
    } else if rank(acc) >= rank(m) {
        acc
    } else {
        m
    }
}

/// Infer `c(...)` from its arguments' types (see `c_result`).
pub fn infer_c(args: &Vec<Arg>, arg_types: &Vec<RType>) -> (r: RType)
    ensures
        c_result(args@, arg_types@, r),
{
    if arg_types.len() == 0 {
        return RType::new(Mode::Null, Length::Zero);
    }
    let mut mode = Mode::Null;
    let mut total: Option<usize> = Some(0);
    let mut i: usize = 0;
    assert(arg_types@.take(0) =~= Seq::<RType>::empty());
    while i < arg_types.len()
        invariant
            i <= arg_types@.len(),
            mode == c_mode(arg_types@.take(i as int)),
            match total {
                Some(t) => c_total(arg_types@.take(i as int)) == Some(t as int),
                None => c_total(arg_types@.take(i as int)) is None,
            },
        decreases arg_types.len() - i,
    {
        assert(arg_types@.take(i + 1).drop_last() =~= arg_types@.take(i as int));
        mode = c_step_exec(mode, arg_types[i].mode);
        total = match total {
            Some(t) => match arg_types[i].length {
                Length::Zero => Some(t),
                Length::One => t.checked_add(1),
                Length::Known(n) => t.checked_add(n),
                _ => None,
            },
            None => None,
        };
        i = i + 1;
    }
    assert(arg_types@.take(arg_types@.len() as int) =~= arg_types@);
    let mut opaque = false;
    let mut j: usize = 0;
    while j < args.len()
        invariant
            j <= args@.len(),
            opaque == exists|k: int| 0 <= k < j && #[trigger] opaque_slot(args@[k]),
        decreases args.len() - j,
    {
        match &args[j].value {
            Expr::Unknown(_) | Expr::Missing(_) => {
                assert(opaque_slot(args@[j as int]));
                opaque = true;
            },
            _ => {},
        }
        j = j + 1;
    }
    let length = if opaque {
        Length::Unknown
    } else {
        match total {
            Some(t) => Length::Known(t),
            None => Length::Unknown,
        }
    };
    if mode == Mode::Opaque {
        let mut r = RType::unknown();
        r.length = length;
        r
    } else {
        RType::new(mode, length)
    }
}

/// Named arguments `data.frame(...)` reads as options, not columns.
pub open spec fn frame_option(name: Seq<char>) -> bool {
    name == "row.names"@ || name == "check.rows"@ || name == "check.names"@ || name == "fix.empty.names"@ || name
        == "stringsAsFactors"@
}

/// Whether argument `a` of `data.frame(...)` is a column.
pub open spec fn frame_column_arg(a: Arg) -> bool {
    !(a.name matches Some(n) && frame_option(n@))
}

/// The indices of the column arguments among `args[..k]`, in order.
pub open spec fn frame_columns(args: Seq<Arg>, k: int) -> Seq<int>
    decreases k,
{
    if k <= 0 || k > args.len() {
        Seq::empty()
    } else if frame_column_arg(args[k - 1]) {
        frame_columns(args, k - 1).push(k - 1)
    } else {
        frame_columns(args, k - 1)
    }
}

/// The name `data.frame(...)` gives a column argument, when known: its
/// non-empty name, or an unnamed identifier's name.
pub open spec fn frame_name(a: Arg) -> Option<Seq<char>> {
    match a.name {
        Some(n) => if n@.len() > 0 {
            Some(crate::matching::semantic_name(n@))
        } else {
            None
        },
        None => match a.value {
            Expr::Ident { name, .. } => Some(name@),
            _ => None,
        },
    }
}

/// The length every column of `data.frame(...)` takes: the longest of
/// the column arguments.
pub open spec fn frame_common(args: Seq<Arg>, ts: Seq<RType>) -> Length {
    let cols = frame_columns(args, args.len() as int);
    longest_spec(Seq::new(cols.len(), |j: int| if cols[j] < ts.len() { ts[cols[j]] } else { ts[0] }))
}

/// What `data.frame(...)` gives (see `infer_data_frame`).
pub open spec fn frame_result(args: Seq<Arg>, ts: Seq<RType>, r: RType) -> bool {
    let cols = frame_columns(args, args.len() as int);
    let common = frame_common(args, ts);
    &&& r.mode == Mode::List
    &&& r.length == Length::Known(cols.len() as usize)
    &&& r.class.known && r.class.names@.len() == 1 && r.class.names@[0]@ == "data.frame"@
    &&& r.members is None
    &&& if cols.len() == 0 || exists|j: int| 0 <= j < cols.len() && #[trigger] frame_name(args[cols[j]]) is None {
        r.columns is None
    } else {
        r.columns matches Some(s) && s.complete && !s.locally_constructed && s.columns@.len() == cols.len() && forall|j: int|
            0 <= j < cols.len() ==> (#[trigger] s.columns@[j]).0@ == frame_name(args[cols[j]])->0 && s.columns@[j].1.mode
                == ts[cols[j]].mode && s.columns@[j].1.length == common && class_eq(s.columns@[j].1.class, ts[cols[j]].class)
                && s.columns@[j].1.members is None && s.columns@[j].1.columns is None
    }
}

fn is_frame_option(name: &str) -> (r: bool)
    ensures
        r == frame_option(name@),
{
    proof {
        reveal_strlit("row.names");
        reveal_strlit("check.rows");
        reveal_strlit("check.names");
        reveal_strlit("fix.empty.names");
        reveal_strlit("stringsAsFactors");
    }
    str_eq(name, "row.names") || str_eq(name, "check.rows") || str_eq(name, "check.names") || str_eq(
        name,
        "fix.empty.names",
    ) || str_eq(name, "stringsAsFactors")
}

/// Infer `data.frame(...)`: a list classed `data.frame` with one column
/// per argument that is not an option (`row.names`, `check.names`, ...);
/// every column takes its argument's mode and class and the longest
/// argument's length. The schema is known when every column has a name:
/// its own, or an unnamed identifier's. `arg_types` holds one type per
/// argument.
pub fn infer_data_frame(arg_types: &Vec<RType>, args: &Vec<Arg>) -> (r: RType)
    requires
        arg_types@.len() == args@.len(),
    ensures
        frame_result(args@, arg_types@, r),
{
    proof {
        reveal_strlit("data.frame");
    }
    let mut kept: Vec<usize> = Vec::new();
    let mut kept_types: Vec<RType> = Vec::new();
    let mut i: usize = 0;
    while i < args.len()
        invariant
            i <= args@.len(),
            arg_types@.len() == args@.len(),
            kept@.len() == kept_types@.len(),
            frame_columns(args@, i as int).len() == kept@.len(),
            forall|j: int| 0 <= j < kept@.len() ==> #[trigger] kept@[j] as int == frame_columns(args@, i as int)[j],
            forall|j: int| 0 <= j < kept@.len() ==> kept@[j] < i,
            forall|j: int| 0 <= j < kept@.len() ==> ty_eq(#[trigger] kept_types@[j], arg_types@[kept@[j] as int]),
        decreases args.len() - i,
    {
        let option = match &args[i].name {
            Some(n) => is_frame_option(n.as_str()),
            None => false,
        };
        if !option {
            kept.push(i);
            kept_types.push(copy_type(&arg_types[i]));
        }
        i = i + 1;
    }
    let ghost cols = frame_columns(args@, args@.len() as int);
    let common = longest_arg_length(&kept_types);
    let ghost src = Seq::new(cols.len(), |j: int| if cols[j] < arg_types@.len() { arg_types@[cols[j]] } else { arg_types@[0] });
    assert(longest_spec(kept_types@) == longest_spec(src)) by {
        assert forall|j: int| 0 <= j < kept_types@.len() implies (#[trigger] kept_types@[j]).length == src[j].length by {
            assert(ty_eq(kept_types@[j], arg_types@[kept@[j] as int]));
        }
        lemma_longest_lengths(kept_types@, src);
    }
    assert(common == frame_common(args@, arg_types@));
    let class = ClassVector::single("data.frame");
    let base = RType::new(Mode::List, Length::Known(kept.len())).with_class(class);
    if kept.len() == 0 {
        return base;
    }
    let mut columns: Vec<(String, RType)> = Vec::new();
    let mut k: usize = 0;
    while k < kept.len()
        invariant
            k <= kept@.len(),
            cols == frame_columns(args@, args@.len() as int),
            common == frame_common(args@, arg_types@),
            base.mode == Mode::List,
            base.length == Length::Known(cols.len() as usize),
            base.class.known && base.class.names@.len() == 1 && base.class.names@[0]@ == "data.frame"@,
            base.members is None,
            base.columns is None,
            kept@.len() == kept_types@.len(),
            kept@.len() == cols.len(),
            arg_types@.len() == args@.len(),
            forall|j: int| 0 <= j < kept@.len() ==> #[trigger] kept@[j] as int == cols[j],
            forall|j: int| 0 <= j < kept@.len() ==> kept@[j] < args@.len(),
            forall|j: int| 0 <= j < kept@.len() ==> ty_eq(#[trigger] kept_types@[j], arg_types@[kept@[j] as int]),
            columns@.len() == k,
            forall|j: int| 0 <= j < k ==> #[trigger] frame_name(args@[cols[j]]) is Some,
            forall|j: int|
                0 <= j < k ==> (#[trigger] columns@[j]).0@ == frame_name(args@[cols[j]])->0 && columns@[j].1.mode
                    == arg_types@[cols[j]].mode && columns@[j].1.length == common && class_eq(
                    columns@[j].1.class,
                    arg_types@[cols[j]].class,
                ) && columns@[j].1.members is None && columns@[j].1.columns is None,
        decreases kept.len() - k,
    {
        let a = &args[kept[k]];
        let name = match &a.name {
            Some(n) => {
                if n.unicode_len() == 0 {
                    assert(frame_name(args@[cols[k as int]]) is None);
                    return base;
                }
                semantic_argument_name(n.as_str())
            },
            None => match &a.value {
                Expr::Ident { name, .. } => name.clone(),
                _ => {
                    assert(frame_name(args@[cols[k as int]]) is None);
                    return base;
                },
            },
        };
        let t = &kept_types[k];
        let column = RType { mode: t.mode, length: common, class: copy_class(&t.class), members: None, columns: None };
        proof {
            assert(class_eq(t.class, arg_types@[kept@[k as int] as int].class));
            lemma_class_eq_trans(column.class, t.class, arg_types@[kept@[k as int] as int].class);
        }
        columns.push((name, column));
        k = k + 1;
    }
    base.with_columns(ColumnSchema { columns, complete: true, locally_constructed: false })
}

proof fn lemma_class_eq_trans(a: ClassVector, b: ClassVector, c: ClassVector)
    requires
        class_eq(a, b),
        class_eq(b, c),
    ensures
        class_eq(a, c),
{
    assert forall|i: int| 0 <= i < a.names@.len() implies #[trigger] a.names@[i]@ == c.names@[i]@ by {
        assert(a.names@[i]@ == b.names@[i]@);
    }
}

/// Types of equal lengths give the same longest length.
proof fn lemma_longest_lengths(a: Seq<RType>, b: Seq<RType>)
    requires
        a.len() == b.len(),
        forall|j: int| 0 <= j < a.len() ==> (#[trigger] a[j]).length == b[j].length,
    ensures
        longest_spec(a) == longest_spec(b),
    decreases a.len(),
{
    if a.len() > 0 {
        lemma_longest_lengths(a.drop_last(), b.drop_last());
    }
}


/// Whether a signature's arguments are taken by position: it has no
/// formal other than `...`, or the call passes no argument.
pub open spec fn positional_match(params: Seq<ParamSpec>, args: Seq<Arg>) -> bool {
    params.len() == 0 || args.len() == 0 || forall|j: int| 0 <= j < params.len() ==> #[trigger] params[j].name@ == "..."@
}

/// `m` holds the argument types bound to the formals (or, by position,
/// the argument types themselves).
pub open spec fn matched_types(params: Seq<ParamSpec>, args: Seq<Arg>, ts: Seq<RType>, m: Seq<RType>) -> bool {
    if positional_match(params, args) {
        m.len() == ts.len() && forall|i: int| 0 <= i < ts.len() ==> ty_eq(#[trigger] m[i], ts[i])
    } else {
        m.len() == params.len() && forall|f: int|
            0 <= f < params.len() ==> match bound_actual(params, args, f) {
                Some(i) => if i < ts.len() {
                    ty_eq(#[trigger] m[f], ts[i])
                } else {
                    is_unknown_type(m[f])
                },
                None => is_unknown_type(m[f]),
            }
    }
}

/// `t` is the `i`-th matched type, or opaque when there is none.
pub open spec fn matched_at(m: Seq<RType>, i: int, t: RType) -> bool {
    if 0 <= i < m.len() {
        ty_eq(t, m[i])
    } else {
        is_unknown_type(t)
    }
}

/// The mode a declared return rule gives; `joined` is the join of the
/// second and third matched types.
pub open spec fn declared_mode(mode: ReturnMode, first: RType, third: RType, joined: RType) -> Mode {
    let m = match mode {
        ReturnMode::Exact(x) => x,
        ReturnMode::DoubleOrInt => if first.mode == Mode::Integer {
            Mode::Integer
        } else {
            Mode::Double
        },
        ReturnMode::Arg0 => first.mode,
        ReturnMode::Arg2 => third.mode,
        ReturnMode::YesOrNo => joined.mode,
    };
    if m == Mode::Union {
        Mode::Opaque
    } else {
        m
    }
}

/// The length a declared return rule gives.
pub open spec fn declared_length(length: ReturnLength, first: RType, second: RType, third: RType, args: Seq<Arg>, ts: Seq<RType>) -> Length {
    match length {
        ReturnLength::Exact(l) => l,
        ReturnLength::Arg0 => first.length,
        ReturnLength::Arg1 => second.length,
        ReturnLength::Arg2 => third.length,
        ReturnLength::LongestArg => longest_spec(ts),
        ReturnLength::NArgs => Length::Known(args.len() as usize),
        ReturnLength::Test => first.length,
    }
}

/// The type a declared mode, length and class list give: with no class
/// names an opaque result has an unknown class and any other an empty one.
pub open spec fn declared_type(m: Mode, l: Length, class: Seq<String>, r: RType) -> bool {
    &&& r.mode == m
    &&& r.length == l
    &&& r.members is None
    &&& r.columns is None
    &&& if class.len() > 0 {
        r.class.known && r.class.names@ == class
    } else if m == Mode::Opaque {
        !r.class.known && r.class.names@.len() == 0
    } else {
        r.class.known && r.class.names@.len() == 0
    }
}

/// What a call of a stub gives: its declared return applied to the
/// matched argument types; opaque when it declares none.
pub open spec fn sig_result(sig: FunctionSig, args: Seq<Arg>, ts: Seq<RType>, r: RType) -> bool {
    match sig.return_spec {
        None => is_unknown_type(r),
        Some(ReturnSpec::Concatenation) => c_result(args, ts, r),
        Some(ReturnSpec::FirstArgument) => exists|m: Seq<RType>|
            #[trigger] matched_types(sig.params@, args, ts, m) && matched_at(m, 0, r),
        Some(ReturnSpec::Declared { mode, length, class }) => exists|m: Seq<RType>, a: RType, b: RType, c: RType, j: RType|
            #![trigger matched_types(sig.params@, args, ts, m), matched_at(m, 0, a), matched_at(m, 1, b), matched_at(m, 2, c), join_of(b, c, j)]
            matched_types(sig.params@, args, ts, m) && matched_at(m, 0, a) && matched_at(m, 1, b) && matched_at(
                m,
                2,
                c,
            ) && join_of(b, c, j) && declared_type(
                declared_mode(mode, a, c, j),
                declared_length(length, a, b, c, args, ts),
                class@,
                r,
            ),
    }
}

fn all_dots(params: &[ParamSpec]) -> (r: bool)
    ensures
        r == forall|j: int| 0 <= j < params@.len() ==> #[trigger] params@[j].name@ == "..."@,
{
    proof {
        reveal_strlit("...");
    }
    let mut j: usize = 0;
    while j < params.len()
        invariant
            j <= params@.len(),
            forall|k: int| 0 <= k < j ==> #[trigger] params@[k].name@ == "..."@,
        decreases params.len() - j,
    {
        if !str_eq(params[j].name.as_str(), "...") {
            return false;
        }
        j = j + 1;
    }
    true
}

fn copy_types(ts: &[RType]) -> (r: Vec<RType>)
    ensures
        r@.len() == ts@.len(),
        forall|i: int| 0 <= i < ts@.len() ==> ty_eq(#[trigger] r@[i], ts@[i]),
{
    let mut out: Vec<RType> = Vec::new();
    let mut i: usize = 0;
    while i < ts.len()
        invariant
            i <= ts@.len(),
            out@.len() == i,
            forall|k: int| 0 <= k < i ==> ty_eq(#[trigger] out@[k], ts@[k]),
        decreases ts.len() - i,
    {
        out.push(copy_type(&ts[i]));
        i = i + 1;
    }
    out
}

fn matched_copy(m: &Vec<RType>, i: usize) -> (r: RType)
    ensures
        matched_at(m@, i as int, r),
{
    if i < m.len() {
        copy_type(&m[i])
    } else {
        RType::unknown()
    }
}

impl Checker {
    /// Apply a stub's declared return to the inferred argument types (see
    /// `sig_result`).
    pub fn apply_sig(&self, sig: &FunctionSig, arg_types: &Vec<RType>, args: &Vec<Arg>) -> (r: RType)
        ensures
            sig_result(*sig, args@, arg_types@, r),
    {
        let params = sig.params.as_slice();
        let positional = params.len() == 0 || args.len() == 0 || all_dots(params);
        let matched = if positional {
            copy_types(arg_types.as_slice())
        } else {
            match_args_to_params(params, args.as_slice(), arg_types.as_slice())
        };
        assert(matched_types(sig.params@, args@, arg_types@, matched@));
        match &sig.return_spec {
            None => RType::unknown(),
            Some(ReturnSpec::Concatenation) => infer_c(args, arg_types),
            Some(ReturnSpec::FirstArgument) => {
                let r = matched_copy(&matched, 0);
                assert(matched_at(matched@, 0, r));
                r
            },
            Some(ReturnSpec::Declared { mode, length, class }) => {
                let first = matched_copy(&matched, 0);
                let second = matched_copy(&matched, 1);
                let third = matched_copy(&matched, 2);
                let ghost gb = second;
                let ghost gc = third;
                let second_length = second.length;
                let third_mode = third.mode;
                let third_length = third.length;
                let joined = second.join(third);
                let m = match mode {
                    ReturnMode::Exact(x) => *x,
                    ReturnMode::DoubleOrInt => if first.mode == Mode::Integer {
                        Mode::Integer
                    } else {
                        Mode::Double
                    },
                    ReturnMode::Arg0 => first.mode,
                    ReturnMode::Arg2 => third_mode,
                    ReturnMode::YesOrNo => joined.mode,
                };
                let m = if m == Mode::Union {
                    Mode::Opaque
                } else {
                    m
                };
                let l = match length {
                    ReturnLength::Exact(l) => *l,
                    ReturnLength::Arg0 => first.length,
                    ReturnLength::Arg1 => second_length,
                    ReturnLength::Arg2 => third_length,
                    ReturnLength::LongestArg => longest_arg_length(arg_types),
                    ReturnLength::NArgs => Length::Known(args.len()),
                    ReturnLength::Test => first.length,
                };
                let mut result = RType::new(m, l);
                if class.len() > 0 {
                    let mut names: Vec<String> = Vec::new();
                    let mut i: usize = 0;
                    while i < class.len()
                        invariant
                            i <= class@.len(),
                            names@.len() == i,
                            forall|k: int| 0 <= k < i ==> #[trigger] names@[k] == class@[k],
                        decreases class.len() - i,
                    {
                        names.push(class[i].clone());
                        i = i + 1;
                    }
                    result.class = ClassVector::from_names(names);
                } else if m == Mode::Opaque {
                    result.class = ClassVector::unknown();
                }
                proof {
                    assert(class@.len() > 0 ==> result.class.names@ =~= class@);
                    assert(declared_mode(*mode, first, gc, joined) == m);
                    assert(declared_length(*length, first, gb, gc, args@, arg_types@) == l);
                    assert(declared_type(m, l, class@, result));
                    assert(matched_at(matched@, 1, gb) && matched_at(matched@, 2, gc) && join_of(gb, gc, joined));
                }
                result
            },
        }
    }
}

} // verus!

verus! {

/// Two field schemas list the same fields, of equal types, with the same
/// flags.
pub open spec fn schema_same(x: ColumnSchema, y: ColumnSchema) -> bool {
    &&& x.complete == y.complete
    &&& x.locally_constructed == y.locally_constructed
    &&& x.columns@.len() == y.columns@.len()
    &&& forall|i: int|
        0 <= i < x.columns@.len() ==> (#[trigger] x.columns@[i]).0@ == y.columns@[i].0@ && ty_eq(x.columns@[i].1, y.columns@[i].1)
}

/// `t` is a data frame with the fields of `input`.
pub open spec fn frame_like(input: RType, t: RType) -> bool {
    &&& input.columns is Some
    &&& t.mode == Mode::List
    &&& t.length == Length::Known(input.columns->0.columns@.len() as usize)
    &&& t.class.known && t.class.names@.len() == 1 && t.class.names@[0]@ == "data.frame"@
    &&& t.members is None
    &&& t.columns is Some && schema_same(t.columns->0, input.columns->0)
}

/// Whether some argument is named.
pub open spec fn any_named(args: Seq<Arg>) -> bool {
    exists|i: int| 0 <= i < args.len() && (#[trigger] args[i]).name is Some
}

/// Whether the constructor stage gives a call of `lookup` its type.
pub open spec fn constructs(lookup: Seq<char>, ts: Seq<RType>) -> bool {
    ||| lookup == "c"@
    ||| lookup == "list"@
    ||| lookup == "data.frame"@
    ||| lookup == "t"@
    ||| (lookup == "as.data.frame"@ && ts.len() > 0 && ts[0].columns is Some && ts[0].columns->0.columns@.len() > 0)
}

/// The type the constructor stage gives: `c(...)`, with the field schema
/// of its arguments when one is named; `list(...)`; `data.frame(...)`,
/// which keeps the fields of a single unnamed record argument; `t(x)`,
/// the type of `x`; `as.data.frame(x)` of a record with fields.
pub open spec fn constructor_result(lookup: Seq<char>, args: Seq<Arg>, ts: Seq<RType>, t: RType) -> bool {
    if lookup == "c"@ {
        if args.len() > 0 && any_named(args) {
            t.columns is Some && named_schema_spec(ts, args, t.columns) && c_result(args, ts, RType { columns: None, ..t })
        } else {
            c_result(args, ts, t)
        }
    } else if lookup == "list"@ {
        &&& t.mode == Mode::List
        &&& t.length == Length::Known(ts.len() as usize)
        &&& t.class.known && t.class.names@.len() == 0
        &&& t.members is None
        &&& t.columns matches Some(s) && list_schema_spec(ts, args, s)
    } else if lookup == "data.frame"@ {
        if args.len() == 1 && args[0].name is None && ts[0].columns is Some {
            frame_like(ts[0], t)
        } else {
            frame_result(args, ts, t)
        }
    } else if lookup == "t"@ {
        if ts.len() > 0 {
            ty_eq(t, ts[0])
        } else {
            is_unknown_type(t)
        }
    } else {
        frame_like(ts[0], t)
    }
}

/// A data frame with the fields of `input`, which has fields.
fn frame_of(input: &RType) -> (r: RType)
    requires
        input.columns is Some,
    ensures
        frame_like(*input, r),
{
    let copy = copy_type(input);
    match copy.columns {
        Some(schema) => {
            let n = schema.columns.len();
            RType::new(Mode::List, Length::Known(n)).with_class(ClassVector::single("data.frame")).with_columns(schema)
        },
        None => RType::unknown(),
    }
}

/// Whether some argument is named.
fn has_named(args: &Vec<Arg>) -> (r: bool)
    ensures
        r == any_named(args@),
{
    let mut i: usize = 0;
    while i < args.len()
        invariant
            i <= args@.len(),
            forall|k: int| 0 <= k < i ==> (#[trigger] args@[k]).name is None,
        decreases args.len() - i,
    {
        if args[i].name.is_some() {
            assert(args@[i as int].name is Some);
            return true;
        }
        i = i + 1;
    }
    false
}

impl Checker {
    /// The constructor stage of a call: `c`, `list`, `data.frame`, `t`
    /// and `as.data.frame` (see `constructor_result`); `None` for other
    /// calls.
    pub fn infer_atomic_constructor_call(&self, lookup_name: &str, args: &Vec<Arg>, arg_types: &Vec<RType>) -> (r: Option<RType>)
        requires
            arg_types@.len() == args@.len(),
        ensures
            r is Some == constructs(lookup_name@, arg_types@),
            r matches Some(t) ==> constructor_result(lookup_name@, args@, arg_types@, t),
    {
        proof {
            reveal_strlit("c");
            reveal_strlit("list");
            reveal_strlit("data.frame");
            reveal_strlit("t");
            reveal_strlit("as.data.frame");
        }
        if str_eq(lookup_name, "c") {
            let result = infer_c(args, arg_types);
            if args.len() > 0 && has_named(args) {
                match build_named_schema(arg_types, args) {
                    Some(schema) => {
                        let r = result.with_columns(schema);
                        assert(RType { columns: None, ..r } == result);
                        return Some(r);
                    },
                    None => {
                        return Some(result);
                    },
                }
            }
            return Some(result);
        }
        if str_eq(lookup_name, "list") {
            return Some(self.infer_list(arg_types, args));
        }
        if str_eq(lookup_name, "data.frame") {
            if args.len() == 1 && args[0].name.is_none() && arg_types[0].columns.is_some() {
                return Some(frame_of(&arg_types[0]));
            }
            return Some(infer_data_frame(arg_types, args));
        }
        if str_eq(lookup_name, "t") {
            if arg_types.len() > 0 {
                return Some(copy_type(&arg_types[0]));
            }
            return Some(RType::unknown());
        }
        if str_eq(lookup_name, "as.data.frame") && arg_types.len() > 0 {
            match &arg_types[0].columns {
                Some(schema) => {
                    if schema.columns.len() > 0 {
                        return Some(frame_of(&arg_types[0]));
                    }
                },
                None => {},
            }
        }
        None
    }
}

} // verus!
