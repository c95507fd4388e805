//! Writes through a subscript: `x$name <- v`, `x[["name"]] <- v`,
//! `x["name"] <- v`, `x[c("a", "b")] <- v` and `d$col[i] <- v`, with RY061
//! for a field written into an atomic vector and RY060 for a data frame
//! column that is missing but a prefix of one that exists.
use vstd::prelude::*;
use crate::ast::{Arg, Expr, IndexKind, Span};
use crate::call_checks::{column_names, undefined_column_message};
use crate::checker::{Checker, Severity, diag_views, reports_added};
use crate::index::{field_type, schema_get};
use crate::modes::{mode_name, mode_text};
use crate::scope::{Scope, aliases_dropped, lookup, names_changed, names_same, rebinds, same_flags};
use crate::subscript::{assigned_column_name, atomic_mode, atomic_spec, column_name_spec};
use crate::text::{starts_with, str_eq};
use crate::types::{ColumnSchema, Mode, RType, class_has, copy_type, lemma_ty_eq_refl, ty_eq};
use crate::typeshed::assoc;
use crate::scope::assoc_set;

verus! {

/// What a write through a subscript did.
#[derive(Clone, Copy, PartialEq, Eq, Debug, Structural)]
pub enum IndexWrite {
    /// The target is not one this rule models; nothing changed.
    Unmodelled,
    /// The write was modelled: the scope and the findings are updated.
    Written,
    /// The base is a name without a binding. The caller infers that name,
    /// which reports it, and the write counts as handled.
    UnboundBase,
}

/// The type of field `k` in `t`'s schema, if it has one.
pub open spec fn base_field(t: RType, k: Seq<char>) -> Option<RType> {
    match t.columns {
        Some(s) => field_type(s, k),
        None => None,
    }
}

/// `r` is `t` with each field named in `names` holding a type equal to
/// `v` and every other field as before; the schema keeps its flags, and a
/// type without a schema gets an open one.
pub open spec fn fields_written(t: RType, r: RType, names: Seq<Seq<char>>, v: RType) -> bool {
    &&& r.mode == t.mode
    &&& r.length == t.length
    &&& r.class == t.class
    &&& r.members == t.members
    &&& r.columns matches Some(s)
    &&& s.complete == (t.columns matches Some(ts) && ts.complete)
    &&& s.locally_constructed == (t.columns matches Some(ts) && ts.locally_constructed)
    &&& forall|k: Seq<char>|
        #![trigger field_type(s, k)]
        if names.contains(k) {
            field_type(s, k) matches Some(x) && ty_eq(x, v)
        } else {
            field_type(s, k) == base_field(t, k)
        }
}

/// Whether an expression is the name `c`.
pub open spec fn is_c_function(e: Expr) -> bool {
    e matches Expr::Ident { name, .. } && name@ == "c"@
}

/// An unnamed string literal argument.
pub open spec fn is_string_arg(a: Arg) -> bool {
    a.name is None && a.value is String
}

/// The text of a string literal.
pub open spec fn string_text(e: Expr) -> Seq<char> {
    match e {
        Expr::String(s, _) => s@,
        _ => Seq::empty(),
    }
}

/// A one-name list holds that name and no other.
proof fn lemma_single_name(x: Seq<char>)
    ensures
        forall|k: Seq<char>| #[trigger] seq![x].contains(k) <==> k == x,
{
    assert forall|k: Seq<char>| #[trigger] seq![x].contains(k) <==> k == x by {
        if k == x {
            assert(seq![x][0] == k);
        }
    }
}

/// `r` is `t` with the one field `name` written (see `fields_written`).
pub open spec fn field_written(t: RType, r: RType, name: Seq<char>, v: RType) -> bool {
    fields_written(t, r, seq![name], v)
}

/// The string literals an index names: `"a"`, or every element of
/// `c("a", "b", ...)` when each is an unnamed string literal.
pub open spec fn string_literal_texts(e: Expr) -> Seq<Seq<char>> {
    match e {
        Expr::String(s, _) => seq![s@],
        Expr::Call { func, args, .. } => if is_c_function(*func) {
            call_texts(args@)
        } else {
            Seq::empty()
        },
        _ => Seq::empty(),
    }
}

/// The texts of `c(...)`'s arguments when all are unnamed string literals.
pub open spec fn call_texts(args: Seq<Arg>) -> Seq<Seq<char>> {
    if args.len() > 0 && forall|i: int| 0 <= i < args.len() ==> #[trigger] is_string_arg(args[i]) {
        Seq::new(args.len(), |i: int| string_text(args[i].value))
    } else {
        Seq::empty()
    }
}

/// The names a single-bracket write names by string literals.
pub open spec fn single_write_names(kind: IndexKind, args: Seq<Arg>) -> Seq<Seq<char>> {
    if kind == IndexKind::Single && args.len() > 0 {
        string_literal_texts(args[0].value)
    } else {
        Seq::empty()
    }
}

/// The root name and field of a `root$field[...] <- v` style target.
pub open spec fn nested_target(base: Expr) -> Option<(Seq<char>, Seq<char>)> {
    match base {
        Expr::Index { base: root, kind, args, .. } => match (*root, column_name_spec(kind, args@)) {
            (Expr::Ident { name, .. }, Some(f)) => Some((name@, f)),
            _ => None,
        },
        _ => None,
    }
}

/// What the write does, given the scope before it.
pub open spec fn index_write_outcome(scope: Scope, base: Expr, kind: IndexKind, args: Seq<Arg>) -> IndexWrite {
    match base {
        Expr::Index { .. } => match nested_target(base) {
            Some((root, _)) => if (lookup(scope, root) is Some) {
                IndexWrite::Written
            } else {
                IndexWrite::Unmodelled
            },
            None => IndexWrite::Unmodelled,
        },
        Expr::Ident { name, .. } => match lookup(scope, name@) {
            None => IndexWrite::UnboundBase,
            Some(bt) => if single_write_names(kind, args).len() > 0 || (column_name_spec(kind, args) is Some) {
                IndexWrite::Written
            } else if bt.mode == Mode::List || bt.mode == Mode::Null {
                IndexWrite::Written
            } else {
                IndexWrite::Unmodelled
            },
        },
        _ => IndexWrite::Unmodelled,
    }
}

/// Whether a data frame's complete schema lacks `field` while one of its
/// columns starts with it.
pub open spec fn near_miss_column(t: RType, field: Seq<char>) -> bool {
    &&& class_has(t.class, "data.frame"@)
    &&& t.columns matches Some(s)
    &&& s.complete
    &&& field_type(s, field) is None
    &&& exists|j: int| 0 <= j < s.columns@.len() && field.is_prefix_of(#[trigger] s.columns@[j].0@)
}

pub open spec fn ry061_write_message(m: Mode) -> Seq<char> {
    "$ operator is invalid for atomic vectors of mode `"@ + mode_text(m) + "`"@
}

/// The findings of the write.
pub open spec fn index_write_reports(scope: Scope, base: Expr, kind: IndexKind, args: Seq<Arg>, span: Span) -> Seq<
    (Severity, Span, Seq<char>, Seq<char>),
> {
    match base {
        Expr::Index { .. } => match nested_target(base) {
            Some((root, f)) => match lookup(scope, root) {
                Some(rt) => if near_miss_column(rt, f) {
                    seq![(Severity::Error, span, "RY060"@, undefined_column_message(f, column_names(rt.columns->0.columns@)))]
                } else {
                    seq![]
                },
                None => seq![],
            },
            None => seq![],
        },
        Expr::Ident { name, .. } => match lookup(scope, name@) {
            Some(bt) => if single_write_names(kind, args).len() == 0 && column_name_spec(kind, args) is Some
                && atomic_spec(bt) {
                seq![(Severity::Error, span, "RY061"@, ry061_write_message(bt.mode))]
            } else {
                seq![]
            },
            None => seq![],
        },
        _ => seq![],
    }
}

/// `b` is `a` with `name` bound afresh to `ty`, as `Scope::insert` does.
pub open spec fn rebound(a: Scope, b: Scope, name: Seq<char>, ty: RType) -> bool {
    &&& rebinds(a, b, name, ty)
    &&& names_same(a.parameters@, b.parameters@)
    &&& names_changed(a.default_parameters@, b.default_parameters@, name, false)
    &&& names_changed(a.narrowed_bindings@, b.narrowed_bindings@, name, false)
    &&& names_changed(a.list_origin_bindings@, b.list_origin_bindings@, name, false)
    &&& names_changed(a.lexical_functions@, b.lexical_functions@, name, false)
    &&& aliases_dropped(a, b, name)
    &&& same_flags(a, b)
}

/// The type a nested write stores in the root's field: the field's own
/// type when the schema has it, else the written value's.
pub open spec fn nested_value(rt: RType, f: Seq<char>, vt: RType, w: RType) -> bool {
    match base_field(rt, f) {
        Some(x) => ty_eq(w, x),
        None => w == vt,
    }
}

/// `r` is `t` with its schema opened: the same fields, not complete.
pub open spec fn schema_opened(t: RType, r: RType) -> bool {
    &&& r.mode == t.mode
    &&& r.length == t.length
    &&& r.class == t.class
    &&& r.members == t.members
    &&& r.columns matches Some(s)
    &&& !s.complete
    &&& match t.columns {
        Some(ts) => s.columns == ts.columns && s.locally_constructed == ts.locally_constructed,
        None => s.columns@.len() == 0 && !s.locally_constructed,
    }
}

/// The scope after `root$f[...] <- vt`.
pub open spec fn nested_write_scope(a: Scope, b: Scope, root: Seq<char>, f: Seq<char>, vt: RType) -> bool {
    exists|c: RType, w: RType, r: RType|
        #![trigger field_written(c, r, f, w)]
        ty_eq(c, lookup(a, root)->0) && nested_value(c, f, vt, w) && field_written(c, r, f, w) && rebound(
            a,
            b,
            root,
            r,
        )
}

/// `b` rebinds `name` to a copy of its type with the fields in `names`
/// written to `vt`.
pub open spec fn names_write_scope(a: Scope, b: Scope, name: Seq<char>, names: Seq<Seq<char>>, vt: RType) -> bool {
    exists|c: RType, r: RType|
        #![trigger fields_written(c, r, names, vt)]
        ty_eq(c, lookup(a, name)->0) && fields_written(c, r, names, vt) && rebound(a, b, name, r)
}

/// `b` rebinds `name` to a copy of its type with field `col` written to
/// `vt`.
pub open spec fn column_write_scope(a: Scope, b: Scope, name: Seq<char>, col: Seq<char>, vt: RType) -> bool {
    exists|c: RType, r: RType|
        #![trigger field_written(c, r, col, vt)]
        ty_eq(c, lookup(a, name)->0) && field_written(c, r, col, vt) && rebound(a, b, name, r)
}

/// `b` rebinds `name` to a copy of its type with its schema opened.
pub open spec fn opened_write_scope(a: Scope, b: Scope, name: Seq<char>) -> bool {
    exists|c: RType, r: RType|
        #![trigger schema_opened(c, r)]
        ty_eq(c, lookup(a, name)->0) && schema_opened(c, r) && rebound(a, b, name, r)
}

/// The scope after `name[args] <- vt`, when `name` is bound.
pub open spec fn named_write_scope(a: Scope, b: Scope, name: Seq<char>, kind: IndexKind, args: Seq<Arg>, vt: RType) -> bool {
    if single_write_names(kind, args).len() > 0 {
        names_write_scope(a, b, name, single_write_names(kind, args), vt)
    } else if column_name_spec(kind, args) is None {
        opened_write_scope(a, b, name)
    } else if atomic_spec(lookup(a, name)->0) {
        b == a
    } else {
        column_write_scope(a, b, name, column_name_spec(kind, args)->0, vt)
    }
}

/// The scope after the write: unchanged unless it is modelled.
pub open spec fn index_write_scope(
    a: Scope,
    b: Scope,
    base: Expr,
    kind: IndexKind,
    args: Seq<Arg>,
    vt: RType,
) -> bool {
    if index_write_outcome(a, base, kind, args) != IndexWrite::Written {
        b == a
    } else {
        match base {
            Expr::Index { .. } => {
                let (root, f) = nested_target(base)->0;
                nested_write_scope(a, b, root, f, vt)
            },
            Expr::Ident { name, .. } => named_write_scope(a, b, name@, kind, args, vt),
            _ => b == a,
        }
    }
}

/// `t` with field `name` set to exactly `v` and every other field kept.
pub fn with_written_field(t: RType, name: &str, v: RType) -> (r: RType)
    ensures
        r.mode == t.mode,
        r.length == t.length,
        r.class == t.class,
        r.members == t.members,
        r.columns matches Some(s) && s.complete == (t.columns matches Some(ts) && ts.complete)
            && s.locally_constructed == (t.columns matches Some(ts) && ts.locally_constructed) && forall|k: Seq<char>|
            #![trigger field_type(s, k)]
            field_type(s, k) == if k == name@ {
                Some(v)
            } else {
                base_field(t, k)
            },
{
    let RType { mode, length, class, members, columns } = t;
    let schema = match columns {
        Some(s) => {
            let ColumnSchema { columns: cols, complete, locally_constructed } = s;
            let mut cols = cols;
            assoc_set(&mut cols, name.to_string(), v);
            ColumnSchema { columns: cols, complete, locally_constructed }
        },
        None => {
            let mut cols: Vec<(String, RType)> = Vec::new();
            assert(forall|k: Seq<char>| assoc(cols@, k, 0) is None);
            assoc_set(&mut cols, name.to_string(), v);
            ColumnSchema { columns: cols, complete: false, locally_constructed: false }
        },
    };
    RType { mode, length, class, members, columns: Some(schema) }
}

/// The string literals an index names (see `string_literal_texts`).
fn string_literals(e: &Expr) -> (r: Vec<String>)
    ensures
        r@.len() == string_literal_texts(*e).len(),
        forall|i: int| 0 <= i < r@.len() ==> #[trigger] r@[i]@ == string_literal_texts(*e)[i],
{
    proof {
        reveal_strlit("c");
    }
    match e {
        Expr::String(s, _) => {
            let mut out: Vec<String> = Vec::new();
            out.push(s.clone());
            out
        },
        Expr::Call { func, args, .. } => {
            let is_c = match &**func {
                Expr::Ident { name, .. } => str_eq(name.as_str(), "c"),
                _ => false,
            };
            if !is_c || args.len() == 0 {
                return Vec::new();
            }
            let mut out: Vec<String> = Vec::new();
            let mut i: usize = 0;
            while i < args.len()
                invariant
                    i <= args@.len(),
                    out@.len() == i,
                    string_literal_texts(*e) == call_texts(args@),
                    forall|k: int| 0 <= k < i ==> #[trigger] is_string_arg(args@[k]),
                    forall|k: int| 0 <= k < i ==> #[trigger] out@[k]@ == string_text(args@[k].value),
                decreases args.len() - i,
            {
                if args[i].name.is_some() {
                    assert(!is_string_arg(args@[i as int]));
                    return Vec::new();
                }
                match &args[i].value {
                    Expr::String(s, _) => out.push(s.clone()),
                    _ => {
                        assert(!is_string_arg(args@[i as int]));
                        return Vec::new();
                    },
                }
                i = i + 1;
            }
            out
        },
        _ => Vec::new(),
    }
}

/// Whether some column name of `s` starts with `field`.
fn some_column_extends(s: &ColumnSchema, field: &str) -> (r: bool)
    ensures
        r == exists|j: int| 0 <= j < s.columns@.len() && field@.is_prefix_of(#[trigger] s.columns@[j].0@),
{
    let mut i: usize = 0;
    while i < s.columns.len()
        invariant
            i <= s.columns@.len(),
            forall|j: int| 0 <= j < i ==> !field@.is_prefix_of(#[trigger] s.columns@[j].0@),
        decreases s.columns.len() - i,
    {
        if starts_with(s.columns[i].0.as_str(), field) {
            assert(field@.is_prefix_of(s.columns@[i as int].0@));
            return true;
        }
        i = i + 1;
    }
    false
}

impl Checker {
    /// Model `base[args] <- vt` (see `index_write_outcome`,
    /// `index_write_reports` and `index_write_scope`).
    pub fn assign_index_target(
        &mut self,
        base: &Expr,
        kind: IndexKind,
        args: &Vec<Arg>,
        vt: RType,
        span: Span,
        scope: &mut Scope,
    ) -> (r: IndexWrite)
        ensures
            r == index_write_outcome(*old(scope), *base, kind, args@),
            reports_added(*old(self), *final(self), index_write_reports(*old(scope), *base, kind, args@, span)),
            index_write_scope(*old(scope), *final(scope), *base, kind, args@, vt),
    {
        let ghost c0 = *self;
        assert(diag_views(self.diagnostics@) =~= diag_views(c0.diagnostics@) + seq![]);
        match base {
            Expr::Index { base: root, kind: field_kind, args: field_args, .. } => {
                let root_name = match &**root {
                    Expr::Ident { name, .. } => name,
                    _ => return IndexWrite::Unmodelled,
                };
                let field = match assigned_column_name(*field_kind, field_args) {
                    Some(f) => f,
                    None => return IndexWrite::Unmodelled,
                };
                let root_ref = match scope.get(root_name.as_str()) {
                    Some(t) => t,
                    None => return IndexWrite::Unmodelled,
                };
                proof {
                    reveal_strlit("data.frame");
                }
                if root_ref.class.contains("data.frame") {
                    if let Some(schema) = &root_ref.columns {
                        if schema.complete && schema_get(schema, field).is_none() && some_column_extends(schema, field) {
                            self.emit_undefined_column(field, schema, span);
                        }
                    }
                }
                let root_type = copy_type(root_ref);
                let stored = match &root_type.columns {
                    Some(schema) => match schema_get(schema, field) {
                        Some(t) => t,
                        None => vt,
                    },
                    None => vt,
                };
                let updated = with_written_field(root_type, field, stored);
                proof {
                    lemma_ty_eq_refl(stored);
                    lemma_single_name(field@);
                    assert(field_written(root_type, updated, field@, stored));
                }
                scope.insert(root_name.as_str(), updated);
                IndexWrite::Written
            },
            Expr::Ident { name: base_name, .. } => {
                let base_t = match scope.get(base_name.as_str()) {
                    Some(t) => copy_type(t),
                    None => return IndexWrite::UnboundBase,
                };
                if kind == IndexKind::Single && args.len() > 0 {
                    let names = string_literals(&args[0].value);
                    if names.len() > 0 {
                        let ghost texts = string_literal_texts(args@[0].value);
                        let first = copy_type(&vt);
                        let mut updated = with_written_field(base_t, names[0].as_str(), first);
                        proof {
                            assert forall|k: Seq<char>| #[trigger] texts.take(1).contains(k) <==> k == texts[0] by {
                                if texts.take(1).contains(k) {
                                    let t1 = texts.take(1);
                                    let j = choose|j: int| 0 <= j < 1 && #[trigger] t1[j] == k;
                                    assert(j == 0);
                                }
                                if k == texts[0] {
                                    assert(texts.take(1)[0] == k);
                                }
                            }
                        }
                        let mut i: usize = 1;
                        while i < names.len()
                            invariant
                                1 <= i <= names@.len(),
                                names@.len() == texts.len(),
                                forall|j: int| 0 <= j < names@.len() ==> #[trigger] names@[j]@ == texts[j],
                                fields_written(base_t, updated, texts.take(i as int), vt),
                            decreases names.len() - i,
                        {
                            let copy = copy_type(&vt);
                            let ghost before = updated;
                            updated = with_written_field(updated, names[i].as_str(), copy);
                            proof {
                                let s = updated.columns->0;
                                let n = texts[i as int];
                                assert forall|k: Seq<char>| #![trigger field_type(s, k)] if texts.take(i + 1).contains(k) {
                                    field_type(s, k) matches Some(x) && ty_eq(x, vt)
                                } else {
                                    field_type(s, k) == base_field(base_t, k)
                                } by {
                                    let bs = before.columns->0;
                                    if k == n {
                                        assert(texts.take(i + 1)[i as int] == k);
                                    } else {
                                        assert(field_type(s, k) == field_type(bs, k));
                                        if texts.take(i + 1).contains(k) {
                                            let t2 = texts.take(i + 1);
                                            let j = choose|j: int| 0 <= j < i + 1 && #[trigger] t2[j] == k;
                                            assert(j < i);
                                            assert(texts.take(i as int)[j] == k);
                                        } else {
                                            if texts.take(i as int).contains(k) {
                                                let t3 = texts.take(i as int);
                                                let j = choose|j: int| 0 <= j < i && #[trigger] t3[j] == k;
                                                assert(texts.take(i + 1)[j] == k);
                                            }
                                        }
                                    }
                                    assert(field_type(bs, k) == field_type(bs, k));
                                }
                            }
                            i = i + 1;
                        }
                        assert(texts.take(names@.len() as int) =~= texts);
                        scope.insert(base_name.as_str(), updated);
                        return IndexWrite::Written;
                    }
                }
                let col = match assigned_column_name(kind, args) {
                    Some(c) => c,
                    None => {
                        if base_t.mode == Mode::List || base_t.mode == Mode::Null {
                            let ghost c = base_t;
                            let RType { mode, length, class, members, columns } = base_t;
                            let schema = match columns {
                                Some(s) => ColumnSchema {
                                    columns: s.columns,
                                    complete: false,
                                    locally_constructed: s.locally_constructed,
                                },
                                None => ColumnSchema {
                                    columns: Vec::new(),
                                    complete: false,
                                    locally_constructed: false,
                                },
                            };
                            let opened = RType { mode, length, class, members, columns: Some(schema) };
                            assert(schema_opened(c, opened));
                            scope.insert(base_name.as_str(), opened);
                            return IndexWrite::Written;
                        }
                        return IndexWrite::Unmodelled;
                    },
                };
                if atomic_mode(&base_t) {
                    let mut message = String::from_str("$ operator is invalid for atomic vectors of mode `");
                    message.append(mode_name(base_t.mode));
                    message.append("`");
                    self.emit(Severity::Error, span, "RY061", message);
                    return IndexWrite::Written;
                }
                let updated = with_written_field(base_t, col, vt);
                proof {
                    lemma_ty_eq_refl(vt);
                    lemma_single_name(col@);
                    assert(field_written(base_t, updated, col@, vt));
                }
                scope.insert(base_name.as_str(), updated);
                IndexWrite::Written
            },
            _ => IndexWrite::Unmodelled,
        }
    }
}

} // verus!
