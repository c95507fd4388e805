//! Constructors whose result length is pinned by literal arguments:
//! `rep`, `seq`, `vector` and `list`.
use vstd::prelude::*;
use crate::ast::{Arg, Expr};
use crate::callsites::{find_arg, find_arg_spec, named_as, rep_count, unnamed_before};
use crate::checker::Checker;
use crate::literals::{build_named_schema, named_schema_spec};
use crate::matching::{ArgumentMatch, arg_tags, first_binding, match_arguments, match_spec, name_views, opt_int, positional_pass};
use crate::result_length::{count_length, size_argument_length, size_spec};
use crate::text::str_eq;
use crate::types::{ColumnSchema, Length, Mode, RType, copy_type, is_plain_type, is_unknown_type, ty_eq};
use crate::typeshed::first_bound;

verus! {

/// An unnamed argument counts before every later position.
proof fn lemma_unnamed_before_grows(args: Seq<Arg>, i: int, j: int)
    requires
        0 <= i < j <= args.len(),
        args[i].name is None,
    ensures
        unnamed_before(args, j) >= unnamed_before(args, i) + 1,
    decreases j - i,
{
    if j > i + 1 {
        lemma_unnamed_before_grows(args, i, j - 1);
    }
}

/// `find_arg` has one answer for given arguments.
proof fn lemma_find_arg_unique(args: Seq<Arg>, name: Seq<char>, pos: int, r1: Option<usize>, r2: Option<usize>)
    requires
        find_arg_spec(args, name, pos, r1),
        find_arg_spec(args, name, pos, r2),
    ensures
        r1 == r2,
{
    if !(exists|i: int| 0 <= i < args.len() && #[trigger] named_as(args[i], name)) {
        match (r1, r2) {
            (Some(a), Some(b)) => {
                if a < b {
                    lemma_unnamed_before_grows(args, a as int, b as int);
                } else if b < a {
                    lemma_unnamed_before_grows(args, b as int, a as int);
                }
            },
            (Some(a), None) => {
                assert(args[a as int].name is None);
            },
            (None, Some(b)) => {
                assert(args[b as int].name is None);
            },
            (None, None) => {},
        }
    } else {
        match (r1, r2) {
            (Some(a), Some(b)) => {
                if a < b {
                    assert(named_as(args[a as int], name));
                } else if b < a {
                    assert(named_as(args[b as int], name));
                }
            },
            _ => {},
        }
    }
}

/// The argument `find_arg` picks for a parameter (see `find_arg_spec`).
pub open spec fn found_arg(args: Seq<Arg>, name: Seq<char>, pos: int) -> Option<usize> {
    choose|r: Option<usize>| find_arg_spec(args, name, pos, r)
}

/// Find the argument for a parameter, as `found_arg` describes it.
fn find_arg_fn(args: &Vec<Arg>, name: &str, pos: usize) -> (r: Option<usize>)
    ensures
        r == found_arg(args@, name@, pos as int),
        r matches Some(i) ==> i < args@.len(),
{
    let r = find_arg(args.as_slice(), name, pos);
    proof {
        lemma_find_arg_unique(args@, name@, pos as int, r, found_arg(args@, name@, pos as int));
    }
    r
}

/// The integer a literal denotes: an integer literal, or a double literal
/// that is a finite whole number.
pub open spec fn literal_int(e: Expr) -> Option<i64> {
    match e {
        Expr::Integer(n, _) => Some(n),
        Expr::Double(d, _) => d.whole,
        _ => None,
    }
}

/// What a call supplies for a parameter found at `index`: nothing when the
/// parameter is not supplied, else the literal integer, if any.
pub open spec fn supplied_literal(args: Seq<Arg>, index: Option<usize>) -> Option<Option<i64>> {
    match index {
        Some(i) => Some(literal_int(args[i as int].value)),
        None => None,
    }
}

/// A repetition count: one when not supplied, a nonnegative literal as
/// itself, and no count otherwise.
pub open spec fn rep_count_of(v: Option<Option<i64>>) -> Option<int> {
    match v {
        None => Some(1),
        Some(Some(n)) => if 0 <= n && n <= usize::MAX {
            Some(n as int)
        } else {
            None
        },
        Some(None) => None,
    }
}

/// `n`, saturated at `usize::MAX`.
pub open spec fn saturated(n: int) -> int {
    if n > usize::MAX {
        usize::MAX as int
    } else {
        n
    }
}

/// The length of `rep(x, times, each)` for an `x` of length `x`.
pub open spec fn rep_length(x: Length, times: int, each: int) -> Length {
    match x {
        Length::Zero => Length::Zero,
        Length::One => count_length(saturated(times * each)),
        Length::Known(n) => count_length(saturated(n * times * each)),
        _ => Length::Unknown,
    }
}

/// The length `rep(...)` gives: unknown when a count has no value.
pub open spec fn rep_result_length(args: Seq<Arg>, x: Length) -> Length {
    let times = rep_count_of(supplied_literal(args, found_arg(args, "times"@, 1)));
    let each = rep_count_of(supplied_literal(args, found_arg(args, "each"@, 2)));
    match (times, each) {
        (Some(t), Some(e)) => rep_length(x, t, e),
        _ => Length::Unknown,
    }
}

/// What `rep(...)` gives: the type of `x` with the repeated length, and
/// the opaque type when `x` has no inferred type.
pub open spec fn rep_spec(args: Seq<Arg>, arg_types: Seq<RType>, r: RType) -> bool {
    match found_arg(args, "x"@, 0) {
        Some(i) => if i < arg_types.len() {
            ty_eq(r, RType { length: rep_result_length(args, arg_types[i as int].length), ..arg_types[i as int] })
        } else {
            is_unknown_type(r)
        },
        None => is_unknown_type(r),
    }
}

/// `a * b`, saturated at `usize::MAX`.
fn saturating_product(a: usize, b: usize) -> (r: usize)
    ensures
        r == saturated(a * b),
{
    match a.checked_mul(b) {
        Some(v) => v,
        None => usize::MAX,
    }
}

/// Saturating twice is saturating once.
proof fn lemma_saturated_twice(a: int, b: int, c: int)
    requires
        0 <= a,
        0 <= b,
        0 <= c,
    ensures
        saturated(saturated(a * b) * c) == saturated(a * b * c),
{
    if a * b > usize::MAX {
        if c == 0 {
            assert(a * b * c == 0) by (nonlinear_arith)
                requires
                    c == 0,
            ;
        } else {
            assert(usize::MAX * c >= usize::MAX) by (nonlinear_arith)
                requires
                    c >= 1,
            ;
            assert(a * b * c >= a * b) by (nonlinear_arith)
                requires
                    c >= 1,
                    a * b >= 0,
            ;
        }
    }
}

/// The length for a count, normalized: zero, one, or a known length.
fn length_for_count(n: usize) -> (r: Length)
    ensures
        r == count_length(n as int),
{
    if n == 0 {
        Length::Zero
    } else if n == 1 {
        Length::One
    } else {
        Length::Known(n)
    }
}

impl Checker {
    /// A constructor call whose callee is not proven: it may run any code,
    /// so the scope records an unknown effect and the result is opaque.
    pub fn infer_unknown_constructor(scope: &mut crate::scope::Scope) -> (r: RType)
        ensures
            *final(scope) == (crate::scope::Scope { effects_unknown: true, ..*old(scope) }),
            is_unknown_type(r),
    {
        scope.invalidate_unknown_effects();
        RType::unknown()
    }

    /// `rep(x, times, each)`: the type of `x` with length
    /// `length(x) * times * each`, an unsupplied count defaulting to one.
    /// `times` and `each` are read from the literal arguments; a supplied
    /// non-literal or negative count leaves the length unknown.
    pub fn infer_rep(&self, args: &Vec<Arg>, arg_types: &Vec<RType>) -> (r: RType)
        ensures
            rep_spec(args@, arg_types@, r),
    {
        let x_type = match find_arg_fn(args, "x", 0) {
            Some(i) => if i < arg_types.len() {
                copy_type(&arg_types[i])
            } else {
                RType::unknown()
            },
            None => RType::unknown(),
        };
        let times = match find_arg_fn(args, "times", 1) {
            Some(i) => Some(crate::subscript::extract_literal_int(&args[i].value)),
            None => None,
        };
        let each = match find_arg_fn(args, "each", 2) {
            Some(i) => Some(crate::subscript::extract_literal_int(&args[i].value)),
            None => None,
        };
        let times_n = match rep_count(times) {
            Some(n) => n,
            None => return RType { length: Length::Unknown, ..x_type },
        };
        let each_n = match rep_count(each) {
            Some(n) => n,
            None => return RType { length: Length::Unknown, ..x_type },
        };
        let length = match x_type.length {
            Length::Zero => Length::Zero,
            Length::One => length_for_count(saturating_product(times_n, each_n)),
            Length::Known(xn) => {
                let first = saturating_product(xn, times_n);
                proof {
                    lemma_saturated_twice(xn as int, times_n as int, each_n as int);
                }
                length_for_count(saturating_product(first, each_n))
            },
            _ => Length::Unknown,
        };
        RType { length, ..x_type }
    }
}

/// The literal integer of the argument found at `index`, if any.
pub open spec fn literal_at(args: Seq<Arg>, index: Option<usize>) -> Option<i64> {
    match index {
        Some(i) => literal_int(args[i as int].value),
        None => None,
    }
}

/// `|x|`.
pub open spec fn abs_int(x: int) -> int {
    if x < 0 {
        -x
    } else {
        x
    }
}

/// The mode of `seq(...)`: integer when `from` is an integer literal or
/// the first argument's type is integer, double otherwise.
pub open spec fn seq_mode(args: Seq<Arg>, arg_types: Seq<RType>) -> Mode {
    let from_is_int = match found_arg(args, "from"@, 0) {
        Some(i) => args[i as int].value is Integer,
        None => false,
    };
    if from_is_int || (arg_types.len() > 0 && arg_types[0].mode == Mode::Integer) {
        Mode::Integer
    } else {
        Mode::Double
    }
}

/// Whether a length-determining argument (`by` or `length.out`) is
/// supplied without a literal value.
pub open spec fn seq_dynamic(args: Seq<Arg>) -> bool {
    let by = found_arg(args, "by"@, 2);
    let lo = found_arg(args, "length.out"@, 3);
    (lo is Some && literal_at(args, lo) is None) || (by is Some && literal_at(args, by) is None)
}

/// The length of `seq(...)`: `length.out` when it is a literal (it wins
/// over `by`), else `|to - from| / |by| + 1` for literal bounds (with `by`
/// defaulting to one and unknown when zero), else unknown.
pub open spec fn seq_length(args: Seq<Arg>) -> Length {
    let from = literal_at(args, found_arg(args, "from"@, 0));
    let to = literal_at(args, found_arg(args, "to"@, 1));
    let by = literal_at(args, found_arg(args, "by"@, 2));
    let lo = literal_at(args, found_arg(args, "length.out"@, 3));
    if seq_dynamic(args) {
        Length::Unknown
    } else {
        match lo {
            Some(n) => if n >= 0 {
                Length::Known(n as usize)
            } else {
                Length::Unknown
            },
            None => match (from, to) {
                (Some(f), Some(t)) => match by {
                    Some(b) => if b == 0 {
                        Length::Unknown
                    } else {
                        Length::Known((abs_int(t - f) / abs_int(b as int) + 1) as usize)
                    },
                    None => Length::Known((abs_int(t - f) + 1) as usize),
                },
                _ => Length::Unknown,
            },
        }
    }
}

/// The counting `seq(...)` does fits the machine: the distance between
/// literal bounds fits an `i64`, and the count and the step fit a `usize`.
pub open spec fn seq_fits(args: Seq<Arg>) -> bool {
    let from = literal_at(args, found_arg(args, "from"@, 0));
    let to = literal_at(args, found_arg(args, "to"@, 1));
    let by = literal_at(args, found_arg(args, "by"@, 2));
    let lo = literal_at(args, found_arg(args, "length.out"@, 3));
    (!seq_dynamic(args) && lo is None && from is Some && to is Some) ==> {
        let d = to->0 - from->0;
        &&& i64::MIN <= d <= i64::MAX
        &&& match by {
            Some(b) => b == 0 || (abs_int(b as int) <= usize::MAX && abs_int(d) <= usize::MAX
                && abs_int(d) / abs_int(b as int) + 1 <= usize::MAX),
            None => abs_int(d) + 1 <= usize::MAX,
        }
    }
}

/// `|t - f| / |step| + 1` in machine integers.
fn seq_count(f: i64, t: i64, step: i64) -> (r: usize)
    requires
        step != 0,
        i64::MIN <= t - f <= i64::MAX,
        abs_int(step as int) <= usize::MAX,
        abs_int(t - f) <= usize::MAX,
        abs_int(t - f) / abs_int(step as int) + 1 <= usize::MAX,
    ensures
        r == abs_int(t - f) / abs_int(step as int) + 1,
{
    let d: i128 = t as i128 - f as i128;
    let diff: i128 = if d < 0 { -d } else { d };
    let s: i128 = if step < 0 { -(step as i128) } else { step as i128 };
    let diff_u = diff as usize;
    let s_u = s as usize;
    diff_u / s_u + 1
}

impl Checker {
    /// `seq(from, to, by)` and `seq.int(...)`: a literal `length.out` pins
    /// the length (it wins over `by`), literal bounds pin it to
    /// `|to - from| / |by| + 1` (`by` defaulting to one); the mode is
    /// integer when `from` is an integer literal or the first argument is
    /// integer, double otherwise.
    pub fn infer_seq(&self, args: &Vec<Arg>, arg_types: &Vec<RType>) -> (r: RType)
        requires
            seq_fits(args@),
        ensures
            is_plain_type(r, seq_mode(args@, arg_types@), seq_length(args@)),
    {
        proof {
            reveal_strlit("from");
        }
        let fi = find_arg_fn(args, "from", 0);
        let ti = find_arg_fn(args, "to", 1);
        let bi = find_arg_fn(args, "by", 2);
        let li = find_arg_fn(args, "length.out", 3);
        let from_val = match fi {
            Some(i) => crate::subscript::extract_literal_int(&args[i].value),
            None => None,
        };
        let to_val = match ti {
            Some(i) => crate::subscript::extract_literal_int(&args[i].value),
            None => None,
        };
        let by_val = match bi {
            Some(i) => crate::subscript::extract_literal_int(&args[i].value),
            None => None,
        };
        let lo_val = match li {
            Some(i) => crate::subscript::extract_literal_int(&args[i].value),
            None => None,
        };
        let from_is_int_literal = match fi {
            Some(i) => match &args[i].value {
                Expr::Integer(..) => true,
                _ => false,
            },
            None => false,
        };
        let mode = if from_is_int_literal || (arg_types.len() > 0 && arg_types[0].mode == Mode::Integer) {
            Mode::Integer
        } else {
            Mode::Double
        };
        if (li.is_some() && lo_val.is_none()) || (bi.is_some() && by_val.is_none()) {
            return RType::new(mode, Length::Unknown);
        }
        let length = match lo_val {
            Some(n) => if n >= 0 {
                Length::Known(n as usize)
            } else {
                Length::Unknown
            },
            None => match (from_val, to_val) {
                (Some(f), Some(t)) => match by_val {
                    Some(b) => if b == 0 {
                        Length::Unknown
                    } else {
                        Length::Known(seq_count(f, t, b))
                    },
                    None => Length::Known(seq_count(f, t, 1)),
                },
                _ => Length::Unknown,
            },
        };
        RType::new(mode, length)
    }
}

/// The formals of `vector`.
pub open spec fn vector_formals() -> Seq<Seq<char>> {
    seq!["mode"@, "length"@]
}

/// The actual argument R binds to formal `f` of `params`.
pub open spec fn bound_to_formal(params: Seq<Seq<char>>, args: Seq<Arg>, f: int) -> Option<int> {
    let names = arg_tags(args);
    first_bound(positional_pass(params, names, names.len() as int).st.pfa, f, 0, names.len() as int)
}

/// The first binding a match reports is the one R's matching computes.
proof fn lemma_first_binding_is_bound(m: ArgumentMatch, params: Seq<Seq<char>>, args: Seq<Arg>, f: int, from: int)
    requires
        match_spec(params, arg_tags(args), m),
        0 <= from,
    ensures
        first_binding(m.param_for_arg@, f, from) == first_bound(
            positional_pass(params, arg_tags(args), arg_tags(args).len() as int).st.pfa,
            f,
            from,
            arg_tags(args).len() as int,
        ),
    decreases m.param_for_arg@.len() - from,
{
    let names = arg_tags(args);
    let fin = positional_pass(params, names, names.len() as int);
    if from < m.param_for_arg@.len() {
        assert(opt_int(m.param_for_arg@[from]) == fin.st.pfa[from]);
        lemma_first_binding_is_bound(m, params, args, f, from + 1);
    }
}

/// The mode `vector(mode = ...)` names.
pub open spec fn mode_named(s: Seq<char>) -> Mode {
    if s == "logical"@ {
        Mode::Logical
    } else if s == "integer"@ {
        Mode::Integer
    } else if s == "numeric"@ || s == "double"@ {
        Mode::Double
    } else if s == "complex"@ {
        Mode::Complex
    } else if s == "character"@ {
        Mode::Character
    } else if s == "raw"@ {
        Mode::Raw
    } else if s == "list"@ || s == "expression"@ {
        Mode::List
    } else {
        Mode::Opaque
    }
}

/// The mode of `vector(mode, length)`: logical by default, the named mode
/// for a string literal, opaque otherwise.
pub open spec fn vector_mode(args: Seq<Arg>) -> Mode {
    match bound_to_formal(vector_formals(), args, 0) {
        Some(i) => match args[i].value {
            Expr::String(m, _) => mode_named(m@),
            _ => Mode::Opaque,
        },
        None => Mode::Logical,
    }
}

/// The length of `vector(mode, length)`: zero by default, else what the
/// size argument asks for.
pub open spec fn vector_length(args: Seq<Arg>) -> Length {
    match bound_to_formal(vector_formals(), args, 1) {
        Some(i) => size_spec(Some(&args[i].value), 0),
        None => size_spec(None, 0),
    }
}

/// The mode a `vector(mode = ...)` string names (see `mode_named`).
fn mode_from_name(s: &str) -> (r: Mode)
    ensures
        r == mode_named(s@),
{
    if str_eq(s, "logical") {
        Mode::Logical
    } else if str_eq(s, "integer") {
        Mode::Integer
    } else if str_eq(s, "numeric") || str_eq(s, "double") {
        Mode::Double
    } else if str_eq(s, "complex") {
        Mode::Complex
    } else if str_eq(s, "character") {
        Mode::Character
    } else if str_eq(s, "raw") {
        Mode::Raw
    } else if str_eq(s, "list") || str_eq(s, "expression") {
        Mode::List
    } else {
        Mode::Opaque
    }
}

/// Whether an argument may splice in values the checker cannot see: `...`
/// or an argument the parser could not read.
pub open spec fn splices(a: Arg) -> bool {
    match a.value {
        Expr::Ident { name, .. } => name@ == "..."@,
        Expr::Unknown(_) => true,
        Expr::Missing(_) => true,
        _ => false,
    }
}

/// The schema `list(...)` gives its result: the fields of its arguments
/// (see `named_schema_spec`), locally constructed, and complete unless an
/// argument may splice in more.
pub open spec fn list_schema_spec(arg_types: Seq<RType>, args: Seq<Arg>, s: ColumnSchema) -> bool {
    &&& s.locally_constructed
    &&& s.complete == !(exists|i: int| 0 <= i < args.len() && #[trigger] splices(args[i]))
    &&& if args.len() == 0 {
        s.columns@.len() == 0
    } else {
        named_schema_spec(arg_types, args, Some(ColumnSchema { columns: s.columns, complete: true, locally_constructed: false }))
    }
}

impl Checker {
    /// `vector(mode, length)`: the mode and length the literal arguments
    /// name.
    pub fn infer_vector(&self, args: &Vec<Arg>) -> (r: RType)
        ensures
            is_plain_type(r, vector_mode(args@), vector_length(args@)),
    {
        let mut formals: Vec<&str> = Vec::new();
        formals.push("mode");
        formals.push("length");
        assert(name_views(formals@) =~= vector_formals());
        let bindings = match_arguments(formals.as_slice(), args.as_slice());
        proof {
            lemma_first_binding_is_bound(bindings, vector_formals(), args@, 0, 0);
            lemma_first_binding_is_bound(bindings, vector_formals(), args@, 1, 0);
        }
        let mode = match bindings.arg_for_param(0) {
            Some(i) => match &args[i].value {
                Expr::String(m, _) => mode_from_name(m.as_str()),
                _ => Mode::Opaque,
            },
            None => Mode::Logical,
        };
        let length = match bindings.arg_for_param(1) {
            Some(i) => size_argument_length(Some(&args[i].value), 0),
            None => size_argument_length(None, 0),
        };
        RType::new(mode, length)
    }

    /// `list(...)`: a list as long as the argument count, with the field
    /// schema of its arguments; an argument that may splice in values
    /// leaves the schema incomplete.
    pub fn infer_list(&self, arg_types: &Vec<RType>, args: &Vec<Arg>) -> (r: RType)
        ensures
            r.mode == Mode::List,
            r.length == Length::Known(arg_types@.len() as usize),
            r.class.known && r.class.names@.len() == 0,
            r.members is None,
            r.columns matches Some(s) && list_schema_spec(arg_types@, args@, s),
    {
        let base = RType::new(Mode::List, Length::Known(arg_types.len()));
        let mut schema = match build_named_schema(arg_types, args) {
            Some(s) => s,
            None => ColumnSchema { columns: Vec::new(), complete: true, locally_constructed: true },
        };
        schema.locally_constructed = true;
        let mut spliced = false;
        let mut i: usize = 0;
        while i < args.len()
            invariant
                i <= args@.len(),
                spliced == exists|k: int| 0 <= k < i && #[trigger] splices(args@[k]),
            decreases args.len() - i,
        {
            let here = match &args[i].value {
                Expr::Ident { name, .. } => str_eq(name.as_str(), "..."),
                Expr::Unknown(_) => true,
                Expr::Missing(_) => true,
                _ => false,
            };
            if here {
                spliced = true;
            }
            proof {
                if here {
                    assert(splices(args@[i as int]));
                }
            }
            i = i + 1;
        }
        if spliced {
            schema.complete = false;
        }
        base.with_columns(schema)
    }

    /// The literal-length constructors: `vector`, `rep`, and `seq` or
    /// `seq.int` pin their result length from literal arguments; other
    /// names are not theirs.
    pub fn infer_literal_length_call(&self, lookup_name: &str, args: &Vec<Arg>, arg_types: &Vec<RType>) -> (r: Option<RType>)
        requires
            lookup_name@ == "seq"@ || lookup_name@ == "seq.int"@ ==> seq_fits(args@),
        ensures
            lookup_name@ == "vector"@ ==> (r matches Some(t) && is_plain_type(t, vector_mode(args@), vector_length(args@))),
            lookup_name@ == "rep"@ ==> (r matches Some(t) && rep_spec(args@, arg_types@, t)),
            lookup_name@ == "seq"@ || lookup_name@ == "seq.int"@ ==> (r matches Some(t) && is_plain_type(
                t,
                seq_mode(args@, arg_types@),
                seq_length(args@),
            )),
            !(lookup_name@ == "vector"@ || lookup_name@ == "rep"@ || lookup_name@ == "seq"@ || lookup_name@ == "seq.int"@)
                ==> r is None,
    {
        proof {
            reveal_strlit("vector");
            reveal_strlit("rep");
            reveal_strlit("seq");
            reveal_strlit("seq.int");
            assert("vector"@.len() == 6 && "rep"@.len() == 3 && "seq"@.len() == 3 && "seq.int"@.len() == 7);
            assert("rep"@[0] != "seq"@[0]);
        }
        if str_eq(lookup_name, "vector") {
            return Some(self.infer_vector(args));
        }
        if str_eq(lookup_name, "rep") {
            return Some(self.infer_rep(args, arg_types));
        }
        if str_eq(lookup_name, "seq") || str_eq(lookup_name, "seq.int") {
            return Some(self.infer_seq(args, arg_types));
        }
        None
    }
}

} // verus!
