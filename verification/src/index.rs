//! Subscripts on inferred types: `x$name`, `x[["name"]]`, `x[[i]]` and
//! `x[i]`, `df[i, j]`, with RY060 (a data frame column that does not
//! exist) and RY061 (`$` on an atomic vector).
use vstd::prelude::*;
use crate::ast::{Arg, Expr, IndexKind, Span};
use crate::binop::{homogeneous_element_type, homogeneous_spec};
use crate::call_checks::{column_names, undefined_column_message};
use crate::checker::{Checker, Severity, diag_views, reports_added};
use crate::literals::{decimal, decimal_text};
use crate::scope::{Scope, find_entry, lemma_assoc_absent, lemma_assoc_first};
use crate::subscript::{
    classless, conservative_element_type, definitely_atomic_spec, dollar_atomic_receiver_may_dispatch,
    dollar_receiver_is_definitely_atomic, dollar_receiver_mode_description, is_non_negative_scalar_index, may_dispatch_spec,
    receiver_description, subset_length, subset_vector, vector_mode,
};
use crate::text::str_eq;
use crate::types::{
    ClassVector, ColumnSchema, Length, Mode, RType, class_has, copy_type, is_plain_type, is_unknown_type, join_of, ty_eq,
};
use crate::typeshed::assoc;

verus! {

/// The type of field `name` of a schema: its first field of that name.
pub open spec fn field_type(s: ColumnSchema, name: Seq<char>) -> Option<RType> {
    assoc(s.columns@, name, 0)
}

/// The type of a schema's field (see `field_type`), copied.
pub fn schema_get(s: &ColumnSchema, name: &str) -> (r: Option<RType>)
    ensures
        match field_type(*s, name@) {
            Some(t) => r matches Some(x) && ty_eq(x, t),
            None => r is None,
        },
{
    match find_entry(&s.columns, name) {
        Some(i) => {
            proof {
                lemma_assoc_first(s.columns@, i as int, name@, 0);
            }
            Some(copy_type(&s.columns[i].1))
        },
        None => {
            proof {
                lemma_assoc_absent(s.columns@, name@, 0);
            }
            None
        },
    }
}

/// The conservative element type of a receiver: opaque for list-like,
/// opaque, function and union receivers, a scalar of the mode otherwise.
pub open spec fn conservative_ok(bt: RType, r: RType) -> bool {
    if bt.mode == Mode::List || bt.mode == Mode::Opaque || bt.mode == Mode::Function || bt.mode == Mode::Union {
        is_unknown_type(r)
    } else {
        is_plain_type(r, bt.mode, Length::One)
    }
}

/// The name `x$name` selects.
pub open spec fn dollar_name(args: Seq<Arg>) -> Option<Seq<char>> {
    if args.len() > 0 {
        match args[0].name {
            Some(n) => Some(n@),
            None => None,
        }
    } else {
        None
    }
}

/// Whether the receiver is a data frame whose schema lists every column.
pub open spec fn closed_frame(bt: RType) -> bool {
    &&& class_has(bt.class, "data.frame"@)
    &&& bt.columns matches Some(s)
    &&& s.complete
}

/// The `[[n]]` key a positive numeric literal index looks up.
pub open spec fn index_key(e: Expr) -> Option<nat> {
    match e {
        Expr::Integer(i, _) => if 1 <= i <= usize::MAX {
            Some(i as nat)
        } else {
            None
        },
        Expr::Double(d, _) => match d.trunc {
            Some(t) => if t >= 1 {
                Some(t as nat)
            } else {
                None
            },
            None => None,
        },
        _ => None,
    }
}

/// The key of a positional field.
pub open spec fn position_key(n: nat) -> Seq<char> {
    "[["@ + decimal(n) + "]]"@
}

/// The position a `df[, j]` literal selects, from one.
pub open spec fn column_position(e: Expr) -> Option<int> {
    match e {
        Expr::Integer(i, _) => if i >= 1 {
            Some(i as int)
        } else {
            None
        },
        Expr::Double(d, _) => match d.whole {
            Some(w) => if w >= 1 {
                Some(w as int)
            } else {
                None
            },
            None => None,
        },
        _ => None,
    }
}

/// The column type `df[i, j]` selects for a literal `j`.
pub open spec fn frame_column(bt: RType, e: Expr) -> Option<RType> {
    match bt.columns {
        None => None,
        Some(s) => match e {
            Expr::String(name, _) => field_type(s, name@),
            _ => match column_position(e) {
                Some(p) => if p <= s.columns@.len() {
                    Some(s.columns@[p - 1].1)
                } else {
                    None
                },
                None => None,
            },
        },
    }
}

/// Whether a dynamic `j` still selects one column: a positive number or
/// a string.
pub open spec fn scalar_column_index(e: Expr) -> bool {
    match e {
        Expr::Integer(n, _) => n > 0,
        Expr::Double(d, _) => d.positive,
        Expr::String(_, _) => true,
        _ => false,
    }
}

/// Whether the call passes `drop = FALSE`.
pub open spec fn drop_false(args: Seq<Arg>) -> bool {
    exists|i: int| 0 <= i < args.len() && #[trigger] is_drop_false(args[i])
}

/// Whether an argument is `drop = FALSE`.
pub open spec fn is_drop_false(a: Arg) -> bool {
    &&& a.name matches Some(n)
    &&& n@ == "drop"@
    &&& a.value matches Expr::Logical(false, _)
}

/// The first string literal among the arguments.
pub open spec fn first_string(args: Seq<Arg>, from: int) -> Option<Seq<char>>
    decreases args.len() - from,
{
    if from < 0 || from >= args.len() {
        None
    } else {
        match args[from].value {
            Expr::String(s, _) => Some(s@),
            _ => first_string(args, from + 1),
        }
    }
}

/// What subsetting one member of a union gives (see `subset_vector`).
pub open spec fn member_subset(m: RType, index: RType, e: Expr, t: RType) -> bool {
    if m.mode == Mode::Null {
        ty_eq(t, m)
    } else if vector_mode(m.mode) {
        ty_eq(t, RType { length: subset_length(m, index, e), columns: None, ..m })
    } else {
        is_unknown_type(t)
    }
}

/// A left-to-right join of member subsets: `parts[i]` is what subsetting
/// `ms[i]` gives, `accs[0] == parts[0]` and each `accs[i]` joins
/// `accs[i - 1]` with `parts[i]`.
pub open spec fn join_chain(ms: Seq<RType>, index: RType, e: Expr, accs: Seq<RType>, parts: Seq<RType>) -> bool {
    &&& ms.len() >= 1
    &&& accs.len() == ms.len()
    &&& parts.len() == ms.len()
    &&& forall|i: int| 0 <= i < ms.len() ==> #[trigger] member_subset(ms[i], index, e, parts[i])
    &&& accs[0] == parts[0]
    &&& forall|i: int| #![trigger accs[i]] 1 <= i < ms.len() ==> join_of(accs[i - 1], parts[i], accs[i])
}

/// The join, left to right, of subsetting each member.
pub open spec fn joined_subsets(ms: Seq<RType>, index: RType, e: Expr, r: RType) -> bool {
    if ms.len() == 0 {
        is_unknown_type(r)
    } else {
        exists|accs: Seq<RType>, parts: Seq<RType>| #[trigger] join_chain(ms, index, e, accs, parts) && accs.last() == r
    }
}

/// Whether `x[i]` on a union needs its members to be classless and a
/// single index.
pub open spec fn union_subsettable(bt: RType, args: Seq<Arg>) -> bool {
    args.len() == 1 && forall|i: int| 0 <= i < bt.members->0@.len() ==> #[trigger] classless(bt.members->0@[i].class)
}

/// The result of `x[...]` (the `[` rule).
pub open spec fn single_result(bt: RType, args: Seq<Arg>, index_types: Seq<RType>, r: RType) -> bool {
    if class_has(bt.class, "data.frame"@) && args.len() >= 2 {
        match frame_column(bt, args[1].value) {
            Some(c) => if !drop_false(args) {
                ty_eq(r, c)
            } else {
                &&& r.mode == Mode::List
                &&& r.length == Length::One
                &&& r.class.known && r.class.names@.len() == 1 && r.class.names@[0]@ == "data.frame"@
                &&& r.members is None
                &&& r.columns matches Some(s) && s.complete && !s.locally_constructed && s.columns@.len() == 1
                    && s.columns@[0].0@ == (match args[1].value {
                    Expr::String(n, _) => n@,
                    _ => "[[1]]"@,
                }) && ty_eq(s.columns@[0].1, c)
            },
            None => if !drop_false(args) && scalar_column_index(args[1].value) {
                is_unknown_type(r)
            } else {
                r == bt
            },
        }
    } else if bt.mode == Mode::List && args.len() >= 2 && first_string(args, 0) is Some {
        match bt.columns {
            Some(s) => match field_type(s, first_string(args, 0)->0) {
                Some(t) => ty_eq(r, t),
                None => is_unknown_type(r),
            },
            None => is_unknown_type(r),
        }
    } else if bt.members is Some {
        if !union_subsettable(bt, args) {
            is_unknown_type(r)
        } else {
            joined_subsets(bt.members->0@, index_types[0], args[0].value, r)
        }
    } else if args.len() == 1 && (bt.mode == Mode::Null || vector_mode(bt.mode)) {
        member_subset(bt, index_types[0], args[0].value, r)
    } else if bt.mode == Mode::Opaque {
        is_unknown_type(r)
    } else {
        r == bt
    }
}

/// The result of `x$name`.
pub open spec fn dollar_result(bt: RType, args: Seq<Arg>, r: RType) -> bool {
    if may_dispatch_spec(bt) || definitely_atomic_spec(bt) {
        is_unknown_type(r)
    } else {
        match (dollar_name(args), bt.columns) {
            (Some(n), Some(s)) => match field_type(s, n) {
                Some(t) => ty_eq(r, t),
                None => if closed_frame(bt) {
                    conservative_ok(bt, r)
                } else if bt.mode == Mode::List && classless(bt.class) {
                    is_plain_type(r, Mode::Null, Length::Zero)
                } else {
                    conservative_ok(bt, r)
                },
            },
            _ => conservative_ok(bt, r),
        }
    }
}

/// The result of `x[[i]]`.
pub open spec fn double_result(bt: RType, args: Seq<Arg>, r: RType) -> bool {
    let arg = if args.len() > 0 {
        Some(args[0].value)
    } else {
        None
    };
    match arg {
        Some(Expr::String(name, _)) => match bt.columns {
            Some(s) => match field_type(s, name@) {
                Some(t) => ty_eq(r, t),
                None => conservative_ok(bt, r),
            },
            None => conservative_ok(bt, r),
        },
        Some(e) => if e is Integer || e is Double {
            match bt.columns {
                Some(s) => match (match index_key(e) {
                    Some(k) => field_type(s, position_key(k)),
                    None => None,
                }) {
                    Some(t) => ty_eq(r, t),
                    None => match homogeneous_spec(s) {
                        Some(t) => ty_eq(r, t),
                        None => is_unknown_type(r),
                    },
                },
                None => is_unknown_type(r),
            }
        } else {
            match bt.columns {
                Some(s) => match homogeneous_spec(s) {
                    Some(t) => if !class_has(bt.class, "data.frame"@) || s.complete {
                        ty_eq(r, t)
                    } else {
                        conservative_ok(bt, r)
                    },
                    None => conservative_ok(bt, r),
                },
                None => conservative_ok(bt, r),
            }
        },
        None => match bt.columns {
            Some(s) => match homogeneous_spec(s) {
                Some(t) => if !class_has(bt.class, "data.frame"@) || s.complete {
                    ty_eq(r, t)
                } else {
                    conservative_ok(bt, r)
                },
                None => conservative_ok(bt, r),
            },
            None => conservative_ok(bt, r),
        },
    }
}

/// The result of a subscript (see `dollar_result`, `double_result` and
/// `single_result`); a `NULL` parameter default read by `$` or `[[` is
/// opaque, since callers may pass a list.
pub open spec fn index_result(
    bt: RType,
    kind: IndexKind,
    args: Seq<Arg>,
    default_null_receiver: bool,
    index_types: Seq<RType>,
    r: RType,
) -> bool {
    if default_null_receiver && (kind == IndexKind::Dollar || kind == IndexKind::Double) && bt.mode == Mode::Null {
        is_unknown_type(r)
    } else {
        match kind {
            IndexKind::Dollar => dollar_result(bt, args, r),
            IndexKind::Double => double_result(bt, args, r),
            IndexKind::Single => single_result(bt, args, index_types, r),
            IndexKind::Slot => is_unknown_type(r),
        }
    }
}

/// The findings of a subscript: RY061 for `$` on an atomic receiver that
/// cannot dispatch, RY060 for a `$` or `[["name"]]` field a closed data
/// frame lacks.
pub open spec fn index_reports(
    bt: RType,
    kind: IndexKind,
    args: Seq<Arg>,
    span: Span,
    default_null_receiver: bool,
) -> Seq<(Severity, Span, Seq<char>, Seq<char>)> {
    if default_null_receiver && (kind == IndexKind::Dollar || kind == IndexKind::Double) && bt.mode == Mode::Null {
        seq![]
    } else {
        match kind {
            IndexKind::Dollar => if may_dispatch_spec(bt) {
                seq![]
            } else if definitely_atomic_spec(bt) {
                seq![
                    (
                        Severity::Error,
                        span,
                        "RY061"@,
                        "$ operator is invalid for atomic vectors of mode `"@ + receiver_description(bt) + "`"@,
                    ),
                ]
            } else {
                match (dollar_name(args), bt.columns) {
                    (Some(n), Some(s)) => if field_type(s, n) is None && closed_frame(bt) {
                        seq![(Severity::Error, span, "RY060"@, undefined_column_message(n, column_names(s.columns@)))]
                    } else {
                        seq![]
                    },
                    _ => seq![],
                }
            },
            IndexKind::Double => if args.len() > 0 {
                match (args[0].value, bt.columns) {
                    (Expr::String(n, _), Some(s)) => if field_type(s, n@) is None && closed_frame(bt) {
                        seq![(Severity::Error, span, "RY060"@, undefined_column_message(n@, column_names(s.columns@)))]
                    } else {
                        seq![]
                    },
                    _ => seq![],
                }
            } else {
                seq![]
            },
            IndexKind::Single => seq![],
            IndexKind::Slot => seq![],
        }
    }
}

/// Whether the subscript may run an S3 `$` method, whose effects the
/// checker cannot see.
pub open spec fn dispatches_dollar(bt: RType, kind: IndexKind, default_null_receiver: bool) -> bool {
    kind == IndexKind::Dollar && !(default_null_receiver && bt.mode == Mode::Null) && may_dispatch_spec(bt)
}

fn has_drop_false(args: &Vec<Arg>) -> (r: bool)
    ensures
        r == drop_false(args@),
{
    proof {
        reveal_strlit("drop");
    }
    let mut i: usize = 0;
    while i < args.len()
        invariant
            i <= args@.len(),
            forall|k: int| 0 <= k < i ==> !#[trigger] is_drop_false(args@[k]),
        decreases args.len() - i,
    {
        let hit = match (&args[i].name, &args[i].value) {
            (Some(n), Expr::Logical(false, _)) => str_eq(n.as_str(), "drop"),
            _ => false,
        };
        if hit {
            assert(is_drop_false(args@[i as int]));
            return true;
        }
        i = i + 1;
    }
    false
}

fn first_string_arg(args: &Vec<Arg>) -> (r: Option<&str>)
    ensures
        match r {
            Some(x) => first_string(args@, 0) == Some(x@),
            None => first_string(args@, 0) is None,
        },
{
    let mut i: usize = 0;
    while i < args.len()
        invariant
            i <= args@.len(),
            first_string(args@, 0) == first_string(args@, i as int),
        decreases args.len() - i,
    {
        if let Expr::String(s, _) = &args[i].value {
            return Some(s.as_str());
        }
        i = i + 1;
    }
    None
}

/// The column type `df[i, j]` selects for a literal `j` (see
/// `frame_column`).
fn frame_column_type(bt: &RType, e: &Expr) -> (r: Option<RType>)
    ensures
        match frame_column(*bt, *e) {
            Some(t) => r matches Some(x) && ty_eq(x, t),
            None => r is None,
        },
{
    let schema = match &bt.columns {
        Some(s) => s,
        None => return None,
    };
    let position: i64 = match e {
        Expr::String(name, _) => return schema_get(schema, name.as_str()),
        Expr::Integer(i, _) => *i,
        Expr::Double(d, _) => match d.whole {
            Some(w) => w,
            None => return None,
        },
        _ => return None,
    };
    if position < 1 || (position as u64) > (schema.columns.len() as u64) {
        return None;
    }
    let k = (position - 1) as usize;
    Some(copy_type(&schema.columns[k].1))
}

/// The text of a positional field key.
fn position_key_text(n: usize) -> (r: String)
    ensures
        r@ == position_key(n as nat),
{
    let mut s = String::from_str("[[");
    s.append(decimal_text(n).as_str());
    s.append("]]");
    proof {
        reveal_strlit("[[");
        reveal_strlit("]]");
    }
    s
}

/// The `[[n]]` key a numeric literal index looks up (see `index_key`).
fn literal_index_key(e: &Expr) -> (r: Option<usize>)
    ensures
        match r {
            Some(k) => index_key(*e) == Some(k as nat),
            None => index_key(*e) is None,
        },
{
    match e {
        Expr::Integer(i, _) => {
            if *i >= 1 && (*i as u64) <= (usize::MAX as u64) {
                Some(*i as usize)
            } else {
                None
            }
        },
        Expr::Double(d, _) => match d.trunc {
            Some(t) => if t >= 1 {
                Some(t)
            } else {
                None
            },
            None => None,
        },
        _ => None,
    }
}

impl Checker {
    /// Infer a subscript of a receiver of type `bt` and report its
    /// findings (see `index_result` and `index_reports`). `index_types`
    /// are the inferred types of the index arguments, in order.
    pub fn infer_index(
        &mut self,
        bt: RType,
        kind: IndexKind,
        args: &Vec<Arg>,
        span: Span,
        default_null_receiver: bool,
        scope: &mut Scope,
        index_types: &Vec<RType>,
    ) -> (r: RType)
        requires
            index_types@.len() == args@.len(),
        ensures
            index_result(bt, kind, args@, default_null_receiver, index_types@, r),
            reports_added(*old(self), *final(self), index_reports(bt, kind, args@, span, default_null_receiver)),
            *final(scope) == if dispatches_dollar(bt, kind, default_null_receiver) {
                Scope { effects_unknown: true, ..*old(scope) }
            } else {
                *old(scope)
            },
    {
        let ghost c0 = *self;
        assert(diag_views(self.diagnostics@) =~= diag_views(c0.diagnostics@) + seq![]);
        proof {
            reveal_strlit("data.frame");
        }
        if default_null_receiver && (kind == IndexKind::Dollar || kind == IndexKind::Double) && bt.mode == Mode::Null {
            return RType::unknown();
        }
        match kind {
            IndexKind::Slot => RType::unknown(),
            IndexKind::Dollar => {
                if dollar_atomic_receiver_may_dispatch(&bt) {
                    scope.invalidate_unknown_effects();
                    return RType::unknown();
                }
                if dollar_receiver_is_definitely_atomic(&bt) {
                    let mut message = String::from_str("$ operator is invalid for atomic vectors of mode `");
                    message.append(dollar_receiver_mode_description(&bt).as_str());
                    message.append("`");
                    self.emit(Severity::Error, span, "RY061", message);
                    return RType::unknown();
                }
                if args.len() > 0 {
                    if let Some(name) = &args[0].name {
                        if let Some(schema) = &bt.columns {
                            if let Some(t) = schema_get(schema, name.as_str()) {
                                return t;
                            }
                            if bt.class.contains("data.frame") && schema.complete {
                                self.emit_undefined_column(name.as_str(), schema, span);
                            } else if bt.mode == Mode::List && bt.class.known && bt.class.names.len() == 0 {
                                return RType::new(Mode::Null, Length::Zero);
                            }
                        }
                    }
                }
                conservative_element_type(&bt)
            },
            IndexKind::Double => {
                if args.len() > 0 {
                    if let Expr::String(name, _) = &args[0].value {
                        if let Some(schema) = &bt.columns {
                            if let Some(t) = schema_get(schema, name.as_str()) {
                                return t;
                            }
                            if bt.class.contains("data.frame") && schema.complete {
                                self.emit_undefined_column(name.as_str(), schema, span);
                            }
                        }
                        return conservative_element_type(&bt);
                    }
                    let numeric = match &args[0].value {
                        Expr::Integer(..) | Expr::Double(..) => true,
                        _ => false,
                    };
                    if numeric {
                        if let Some(schema) = &bt.columns {
                            if let Some(k) = literal_index_key(&args[0].value) {
                                let key = position_key_text(k);
                                if let Some(t) = schema_get(schema, key.as_str()) {
                                    return t;
                                }
                            }
                            if let Some(common) = homogeneous_element_type(schema) {
                                return common;
                            }
                        }
                        return RType::unknown();
                    }
                }
                if let Some(schema) = &bt.columns {
                    if let Some(common) = homogeneous_element_type(schema) {
                        if !bt.class.contains("data.frame") || schema.complete {
                            return common;
                        }
                    }
                }
                conservative_element_type(&bt)
            },
            IndexKind::Single => self.infer_single_index(bt, args, index_types),
        }
    }

    /// `x[...]` (see `single_result`).
    fn infer_single_index(&self, bt: RType, args: &Vec<Arg>, index_types: &Vec<RType>) -> (r: RType)
        requires
            index_types@.len() == args@.len(),
        ensures
            single_result(bt, args@, index_types@, r),
    {
        proof {
            reveal_strlit("data.frame");
        }
        if bt.class.contains("data.frame") && args.len() >= 2 {
            let drop = has_drop_false(args);
            match frame_column_type(&bt, &args[1].value) {
                Some(column) => {
                    if !drop {
                        return column;
                    }
                    let name = match &args[1].value {
                        Expr::String(n, _) => n.clone(),
                        _ => String::from_str("[[1]]"),
                    };
                    proof {
                        reveal_strlit("[[1]]");
                    }
                    let ghost cg = column;
                    let mut columns: Vec<(String, RType)> = Vec::new();
                    columns.push((name, column));
                    return RType::new(Mode::List, Length::One).with_class(ClassVector::single("data.frame")).with_columns(
                        ColumnSchema { columns, complete: true, locally_constructed: false },
                    );
                },
                None => {
                    if !drop && is_non_negative_scalar_index(&args[1].value) {
                        return RType::unknown();
                    }
                    return bt;
                },
            }
        }
        if bt.mode == Mode::List && args.len() >= 2 {
            if let Some(column) = first_string_arg(args) {
                if let Some(schema) = &bt.columns {
                    if let Some(t) = schema_get(schema, column) {
                        return t;
                    }
                }
                return RType::unknown();
            }
        }
        if let Some(members) = &bt.members {
            let mut classed = args.len() != 1;
            let mut i: usize = 0;
            while i < members.len()
                invariant
                    i <= members@.len(),
                    classed == (args@.len() != 1 || exists|k: int| 0 <= k < i && !#[trigger] classless(members@[k].class)),
                decreases members.len() - i,
            {
                if !(members[i].class.known && members[i].class.names.len() == 0) {
                    classed = true;
                    assert(!classless(members@[i as int].class));
                }
                i = i + 1;
            }
            if classed {
                return RType::unknown();
            }
            if members.len() == 0 {
                return RType::unknown();
            }
            let mut acc = match subset_vector(&members[0], &index_types[0], &args[0].value) {
                Some(t) => t,
                None => RType::unknown(),
            };
            let ghost mut accs: Seq<RType> = seq![acc];
            let ghost mut parts: Seq<RType> = seq![acc];
            let mut k: usize = 1;
            while k < members.len()
                invariant
                    1 <= k <= members@.len(),
                    args@.len() == 1,
                    index_types@.len() == 1,
                    join_chain(members@.take(k as int), index_types@[0], args@[0].value, accs, parts),
                    acc == accs.last(),
                decreases members.len() - k,
            {
                let part = match subset_vector(&members[k], &index_types[0], &args[0].value) {
                    Some(t) => t,
                    None => RType::unknown(),
                };
                let next = acc.join(part);
                proof {
                    let ghost old_accs = accs;
                    let ghost old_parts = parts;
                    accs = accs.push(next);
                    parts = parts.push(part);
                    let t = members@.take(k + 1);
                    assert forall|i: int| 0 <= i < t.len() implies #[trigger] member_subset(
                        t[i],
                        index_types@[0],
                        args@[0].value,
                        parts[i],
                    ) by {
                        if i < k {
                            assert(t[i] == members@.take(k as int)[i]);
                            assert(parts[i] == old_parts[i]);
                        }
                    }
                    assert forall|i: int| #![trigger accs[i]] 1 <= i < t.len() implies join_of(
                        accs[i - 1],
                        parts[i],
                        accs[i],
                    ) by {
                        if i < k {
                            assert(accs[i] == old_accs[i]);
                            assert(accs[i - 1] == old_accs[i - 1]);
                            assert(parts[i] == old_parts[i]);
                        }
                    }
                }
                acc = next;
                k = k + 1;
            }
            assert(members@.take(members@.len() as int) =~= members@);
            return acc;
        }
        if args.len() == 1 {
            if let Some(result) = subset_vector(&bt, &index_types[0], &args[0].value) {
                return result;
            }
        }
        if bt.mode == Mode::Opaque {
            RType::unknown()
        } else {
            bt
        }
    }
}

} // verus!
