//! Facts read off literal syntax: class literals, callee literals, the
//! length of recycled arguments, and the field schemas of `list(...)` and
//! `data.frame(...)` constructions.
use vstd::prelude::*;
use crate::ast::{Arg, Expr, ident_is, is_ident_named};
use crate::matching::{semantic_argument_name, semantic_name};
use crate::subscript::{infer_literal_default, literal_default_spec};
use crate::text::str_eq;
use crate::types::{ColumnSchema, Length, Mode, RType, copy_type, is_unknown_type, ty_eq};

verus! {

/// Whether `name` is a wrapper that forwards its first argument to a
/// foreign-function primitive (`call_with_cleanup`).
pub fn is_registered_ffi_wrapper(name: &str) -> (r: bool)
    ensures
        r == (name@ == "call_with_cleanup"@),
{
    str_eq(name, "call_with_cleanup")
}

/// A class literal read from `structure(..., class = ...)`.
#[derive(Debug)]
pub enum ClassLiteral {
    /// A single string literal.
    Single(String),
    /// A `c(...)` of string literals.
    Multi(Vec<String>),
    /// Anything that cannot be read statically.
    Unknown,
}

/// Whether every argument value is a string literal.
pub open spec fn all_strings(args: Seq<Arg>) -> bool {
    forall|i: int| 0 <= i < args.len() ==> (#[trigger] args[i]).value is String
}

/// The string literals of `args`, in order.
pub open spec fn string_values(args: Seq<Arg>) -> Seq<Seq<char>> {
    Seq::new(
        args.len(),
        |i: int|
            match args[i].value {
                Expr::String(s, _) => s@,
                _ => seq![],
            },
    )
}

/// The class literal `e` spells: a string is a single class; a nonempty
/// `c(...)` of strings lists its classes; anything else is unknown.
pub open spec fn class_literal_spec(e: Expr, r: ClassLiteral) -> bool {
    match e {
        Expr::String(s, _) => r matches ClassLiteral::Single(x) && x@ == s@,
        Expr::Call { func, args, .. } => if is_ident_named(*func, "c"@) && args@.len() > 0
            && all_strings(args@) {
            r matches ClassLiteral::Multi(v) && v@.len() == args@.len() && forall|i: int|
                0 <= i < v@.len() ==> (#[trigger] v@[i])@ == string_values(args@)[i]
        } else {
            r is Unknown
        },
        _ => r is Unknown,
    }
}

/// Read a class literal from the `class = ...` argument of `structure`.
pub fn parse_class_literal(e: &Expr) -> (r: ClassLiteral)
    ensures
        class_literal_spec(*e, r),
{
    match e {
        Expr::String(s, _) => ClassLiteral::Single(s.clone()),
        Expr::Call { func, args, .. } => {
            if !ident_is(func, "c") {
                return ClassLiteral::Unknown;
            }
            let mut names: Vec<String> = Vec::new();
            let mut i: usize = 0;
            while i < args.len()
                invariant
                    i <= args@.len(),
                    *e matches Expr::Call { args: a, .. } && a == *args,
                    names@.len() == i,
                    forall|k: int| 0 <= k < i ==> (#[trigger] args@[k]).value is String,
                    forall|k: int| 0 <= k < i ==> (#[trigger] names@[k])@ == string_values(args@)[k],
                decreases args.len() - i,
            {
                match &args[i].value {
                    Expr::String(s, _) => names.push(s.clone()),
                    _ => {
                        assert(!all_strings(args@));
                        return ClassLiteral::Unknown;
                    },
                }
                i = i + 1;
            }
            if names.len() == 0 {
                return ClassLiteral::Unknown;
            }
            ClassLiteral::Multi(names)
        },
        _ => ClassLiteral::Unknown,
    }
}

/// The mode a literal callee would report when called: the literal's own
/// mode, and nothing for a callee that is not a literal.
pub fn literal_callee_mode(e: &Expr) -> (r: Option<Mode>)
    ensures
        forall|t: RType|
            literal_default_spec(*e, t) ==> r == if t.mode == Mode::Opaque {
                None
            } else {
                Some(t.mode)
            },
{
    let t = infer_literal_default(e);
    proof {
        assert forall|u: RType| literal_default_spec(*e, u) implies u.mode == t.mode by {}
    }
    if t.mode == Mode::Opaque {
        None
    } else {
        Some(t.mode)
    }
}

/// One step of the recycled-length fold: zero-length and scalar arguments
/// give way to the other length, known lengths take the larger, and
/// anything else is unknown.
pub open spec fn recycle_step(acc: Length, l: Length) -> Length {
    match (acc, l) {
        (Length::Zero, x) => x,
        (x, Length::Zero) => x,
        (Length::One, x) => x,
        (x, Length::One) => x,
        (Length::Known(a), Length::Known(b)) => Length::Known(if a >= b { a } else { b }),
        _ => Length::Unknown,
    }
}

/// The length of the longest argument after recycling, starting from a
/// scalar.
pub open spec fn longest_spec(ts: Seq<RType>) -> Length
    decreases ts.len(),
{
    if ts.len() == 0 {
        Length::One
    } else {
        recycle_step(longest_spec(ts.drop_last()), ts.last().length)
    }
}

proof fn lemma_unknown_absorbs(ts: Seq<RType>, i: int, j: int)
    requires
        0 <= i <= j <= ts.len(),
        longest_spec(ts.take(i)) == Length::Unknown,
    ensures
        longest_spec(ts.take(j)) == Length::Unknown,
    decreases j - i,
{
    if j > i {
        lemma_unknown_absorbs(ts, i, j - 1);
        assert(ts.take(j).drop_last() =~= ts.take(j - 1));
    }
}

/// The longest known length among argument types.
pub fn longest_arg_length(arg_types: &Vec<RType>) -> (r: Length)
    ensures
        r == longest_spec(arg_types@),
{
    let mut max = Length::One;
    let mut i: usize = 0;
    assert(arg_types@.take(0) =~= Seq::<RType>::empty());
    while i < arg_types.len()
        invariant
            i <= arg_types@.len(),
            max == longest_spec(arg_types@.take(i as int)),
        decreases arg_types.len() - i,
    {
        let l = arg_types[i].length;
        assert(arg_types@.take(i + 1).drop_last() =~= arg_types@.take(i as int));
        max = match (max, l) {
            (Length::Zero, x) => x,
            (x, Length::Zero) => x,
            (Length::One, x) => x,
            (x, Length::One) => x,
            (Length::Known(a), Length::Known(b)) => Length::Known(if a >= b { a } else { b }),
            _ => {
                proof {
                    lemma_unknown_absorbs(arg_types@, i + 1, arg_types@.len() as int);
                    assert(arg_types@.take(arg_types@.len() as int) =~= arg_types@);
                }
                return Length::Unknown;
            },
        };
        i = i + 1;
    }
    assert(arg_types@.take(arg_types@.len() as int) =~= arg_types@);
    max
}

/// The character of a decimal digit.
pub open spec fn digit_char(d: nat) -> char {
    if d == 0 {
        '0'
    } else if d == 1 {
        '1'
    } else if d == 2 {
        '2'
    } else if d == 3 {
        '3'
    } else if d == 4 {
        '4'
    } else if d == 5 {
        '5'
    } else if d == 6 {
        '6'
    } else if d == 7 {
        '7'
    } else if d == 8 {
        '8'
    } else {
        '9'
    }
}

/// The decimal spelling of `n`.
pub open spec fn decimal(n: nat) -> Seq<char>
    decreases n,
{
    if n < 10 {
        seq![digit_char(n)]
    } else {
        decimal(n / 10) + seq![digit_char(n % 10)]
    }
}

fn digit_text(d: usize) -> (r: &'static str)
    requires
        d < 10,
    ensures
        r@ == seq![digit_char(d as nat)],
{
    if d == 0 {
        proof {
            reveal_strlit("0");
        }
        "0"
    } else if d == 1 {
        proof {
            reveal_strlit("1");
        }
        "1"
    } else if d == 2 {
        proof {
            reveal_strlit("2");
        }
        "2"
    } else if d == 3 {
        proof {
            reveal_strlit("3");
        }
        "3"
    } else if d == 4 {
        proof {
            reveal_strlit("4");
        }
        "4"
    } else if d == 5 {
        proof {
            reveal_strlit("5");
        }
        "5"
    } else if d == 6 {
        proof {
            reveal_strlit("6");
        }
        "6"
    } else if d == 7 {
        proof {
            reveal_strlit("7");
        }
        "7"
    } else if d == 8 {
        proof {
            reveal_strlit("8");
        }
        "8"
    } else {
        proof {
            reveal_strlit("9");
        }
        "9"
    }
}

/// The decimal spelling of `n`.
pub fn decimal_text(n: usize) -> (r: String)
    ensures
        r@ == decimal(n as nat),
    decreases n,
{
    if n < 10 {
        String::from_str(digit_text(n))
    } else {
        let mut s = decimal_text(n / 10);
        s.append(digit_text(n % 10));
        s
    }
}

/// Whether an argument counts as positional in a constructor: it has no
/// name or an empty one.
pub open spec fn unnamed_slot(a: Arg) -> bool {
    a.name is None || a.name->0@.len() == 0
}

/// How many of `args[..k]` are positional.
pub open spec fn positional_count(args: Seq<Arg>, k: int) -> nat
    decreases k,
{
    if k <= 0 || k > args.len() {
        0
    } else {
        positional_count(args, k - 1) + if unnamed_slot(args[k - 1]) {
            1nat
        } else {
            0nat
        }
    }
}

/// The column name `list(...)` gives argument `i`: its unquoted name, or
/// R's `[[n]]` placeholder numbering the positional slots.
pub open spec fn list_column_name(args: Seq<Arg>, i: int) -> Seq<char> {
    if unnamed_slot(args[i]) {
        "[["@ + decimal(positional_count(args, i + 1)) + "]]"@
    } else {
        semantic_name(args[i].name->0@)
    }
}

/// The type a constructor argument contributes: its inferred type when
/// one was supplied, the opaque type otherwise.
pub open spec fn column_type_ok(arg_types: Seq<RType>, i: int, t: RType) -> bool {
    if i < arg_types.len() {
        ty_eq(t, arg_types[i])
    } else {
        is_unknown_type(t)
    }
}

/// The schema `list(...)` builds from its arguments.
pub open spec fn named_schema_spec(arg_types: Seq<RType>, args: Seq<Arg>, r: Option<ColumnSchema>) -> bool {
    if args.len() == 0 {
        r is None
    } else {
        &&& r is Some
        &&& r->0.complete
        &&& !r->0.locally_constructed
        &&& r->0.columns@.len() == args.len()
        &&& forall|i: int|
            0 <= i < args.len() ==> (#[trigger] r->0.columns@[i]).0@ == list_column_name(args, i)
                && column_type_ok(arg_types, i, r->0.columns@[i].1)
    }
}

/// Build the field schema of a `list(...)` call.
pub fn build_named_schema(arg_types: &Vec<RType>, args: &Vec<Arg>) -> (r: Option<ColumnSchema>)
    ensures
        named_schema_spec(arg_types@, args@, r),
{
    if args.len() == 0 {
        return None;
    }
    let mut positional: usize = 0;
    let mut columns: Vec<(String, RType)> = Vec::new();
    let mut i: usize = 0;
    while i < args.len()
        invariant
            i <= args@.len(),
            positional == positional_count(args@, i as int),
            positional <= i,
            columns@.len() == i,
            forall|k: int|
                0 <= k < i ==> (#[trigger] columns@[k]).0@ == list_column_name(args@, k)
                    && column_type_ok(arg_types@, k, columns@[k].1),
        decreases args.len() - i,
    {
        let ty = if i < arg_types.len() {
            copy_type(&arg_types[i])
        } else {
            RType::unknown()
        };
        let named = match &args[i].name {
            Some(n) => n.unicode_len() > 0,
            None => false,
        };
        let name = if named {
            match &args[i].name {
                Some(n) => semantic_argument_name(n.as_str()),
                None => String::new(),
            }
        } else {
            positional = positional + 1;
            let mut text = String::from_str("[[");
            let digits = decimal_text(positional);
            text.append(digits.as_str());
            text.append("]]");
            text
        };
        columns.push((name, ty));
        i = i + 1;
    }
    Some(ColumnSchema { columns, complete: true, locally_constructed: false })
}

/// The column name `data.frame(...)` gives argument `i`: an unnamed
/// argument takes its identifier's name, others as in `list(...)`.
pub open spec fn frame_column_name(args: Seq<Arg>, i: int) -> Seq<char> {
    match (args[i].name, args[i].value) {
        (None, Expr::Ident { name, .. }) => name@,
        _ => list_column_name(args, i),
    }
}

/// The schema `data.frame(...)` builds: none when some unnamed argument is
/// not a plain identifier, since its column name is unknown.
pub open spec fn frame_schema_spec(arg_types: Seq<RType>, args: Seq<Arg>, r: Option<ColumnSchema>) -> bool {
    if args.len() == 0 || exists|i: int|
        0 <= i < args.len() && (#[trigger] args[i]).name is None && !(args[i].value is Ident) {
        r is None
    } else {
        &&& r is Some
        &&& r->0.complete
        &&& !r->0.locally_constructed
        &&& r->0.columns@.len() == args.len()
        &&& forall|i: int|
            0 <= i < args.len() ==> (#[trigger] r->0.columns@[i]).0@ == frame_column_name(args, i)
                && column_type_ok(arg_types, i, r->0.columns@[i].1)
    }
}

/// Build the field schema of a `data.frame(...)` call.
pub fn build_data_frame_schema(arg_types: &Vec<RType>, args: &Vec<Arg>) -> (r: Option<ColumnSchema>)
    ensures
        frame_schema_spec(arg_types@, args@, r),
{
    let schema = match build_named_schema(arg_types, args) {
        Some(s) => s,
        None => return None,
    };
    let ghost s0 = schema.columns@;
    let mut columns: Vec<(String, RType)> = Vec::new();
    let mut old_columns = schema.columns;
    let mut i: usize = 0;
    // Take the columns in reverse so each entry can be moved out.
    let mut rev: Vec<(String, RType)> = Vec::new();
    while old_columns.len() > 0
        invariant
            old_columns@.len() + rev@.len() == s0.len(),
            forall|k: int| 0 <= k < old_columns@.len() ==> old_columns@[k] == s0[k],
            forall|k: int| 0 <= k < rev@.len() ==> rev@[k] == s0[s0.len() - 1 - k],
        decreases old_columns.len(),
    {
        let c = old_columns.pop().unwrap();
        rev.push(c);
    }
    while i < args.len()
        invariant
            i <= args@.len(),
            args@.len() == s0.len(),
            rev@.len() == s0.len() - i,
            forall|k: int| 0 <= k < rev@.len() ==> rev@[k] == s0[s0.len() - 1 - k],
            forall|k: int|
                0 <= k < s0.len() ==> (#[trigger] s0[k]).0@ == list_column_name(args@, k)
                    && column_type_ok(arg_types@, k, s0[k].1),
            columns@.len() == i,
            forall|k: int|
                0 <= k < i ==> (#[trigger] columns@[k]).0@ == frame_column_name(args@, k)
                    && columns@[k].1 == s0[k].1,
            forall|k: int| 0 <= k < i ==> !((#[trigger] args@[k]).name is None && !(args@[k].value is Ident)),
        decreases args.len() - i,
    {
        let (name, ty) = rev.pop().unwrap();
        let name = match &args[i].name {
            None => match &args[i].value {
                Expr::Ident { name: symbol, .. } => symbol.clone(),
                _ => return None,
            },
            Some(_) => name,
        };
        columns.push((name, ty));
        i = i + 1;
    }
    proof {
        assert forall|k: int| !(0 <= k < args@.len() && (#[trigger] args@[k]).name is None && !(args@[k].value is Ident)) by {}
    }
    Some(ColumnSchema { columns, complete: schema.complete, locally_constructed: schema.locally_constructed })
}

} // verus!
