//! Binary operators on inferred types: `:`, `%in%`, comparison, logic and
//! arithmetic, with their diagnostics (RY030-RY033, RY040-RY042).
//!
//! The storage-mode rules: arithmetic combines the numeric modes
//! (logical < integer < double < complex, logical promoting to integer),
//! gives a zero-length result against `NULL`, an opaque result against an
//! opaque or union operand, and fails for character, raw, list and
//! function operands. A comparison fails for list (with non-atomic
//! elements) and function operands and otherwise gives a logical vector.
//! Both recycle lengths: an empty operand gives an empty result, a scalar
//! takes the other length, two known lengths give the longer.
use vstd::prelude::*;
use crate::ast::{BinOpKind, Span};
use crate::call_checks::scalar_logical_reports;
use crate::checker::{Checker, Severity, diag_views, reports_added};
use crate::condition::{
    arithmetic_spec, comparison_spec, data_frame_binop_result, frame_binop_spec, is_arithmetic, is_comparison, logic_spec,
};
use crate::literals::{decimal, decimal_text};
use crate::modes::{mode_name, mode_text};
use crate::types::{ClassVector, ColumnSchema, Length, Mode, RType, class_has, copy_type, is_plain_type, is_unknown_type, ty_eq};

verus! {

/// The length two operands recycle to.
pub open spec fn binary_length(a: Length, b: Length) -> Length {
    match (a, b) {
        (Length::Zero, _) => Length::Zero,
        (_, Length::Zero) => Length::Zero,
        (Length::One, x) => x,
        (x, Length::One) => x,
        (Length::Known(x), Length::Known(y)) => Length::Known(if x >= y { x } else { y }),
        _ => Length::Unknown,
    }
}

/// The length two operands recycle to (see `binary_length`).
pub fn recycled_length(a: Length, b: Length) -> (r: Length)
    ensures
        r == binary_length(a, b),
{
    match (a, b) {
        (Length::Zero, _) => Length::Zero,
        (_, Length::Zero) => Length::Zero,
        (Length::One, x) => x,
        (x, Length::One) => x,
        (Length::Known(x), Length::Known(y)) => Length::Known(if x >= y { x } else { y }),
        _ => Length::Unknown,
    }
}

/// The rank of a numeric mode, when it is one.
pub open spec fn numeric_rank(m: Mode) -> Option<int> {
    match m {
        Mode::Logical => Some(0),
        Mode::Integer => Some(1),
        Mode::Double => Some(2),
        Mode::Complex => Some(3),
        _ => None,
    }
}

/// The numeric mode of a rank, at least integer.
pub open spec fn rank_mode(r: int) -> Mode {
    if r <= 1 {
        Mode::Integer
    } else if r == 2 {
        Mode::Double
    } else {
        Mode::Complex
    }
}

/// Whether arithmetic on a mode fails.
pub open spec fn arith_refuses(m: Mode) -> bool {
    m == Mode::Character || m == Mode::Raw || m == Mode::List || m == Mode::Function
}

/// Arithmetic on two types: `None` when it fails, `Some(None)` for an
/// opaque result, `Some(Some((m, l)))` for a classless vector of mode `m`
/// and length `l`.
pub open spec fn arith_spec(a: RType, b: RType) -> Option<Option<(Mode, Length)>> {
    if arith_refuses(a.mode) || arith_refuses(b.mode) {
        None
    } else if a.mode == Mode::Opaque || a.mode == Mode::Union || b.mode == Mode::Opaque || b.mode == Mode::Union {
        Some(None)
    } else if a.mode == Mode::Null && b.mode == Mode::Null {
        Some(Some((Mode::Integer, Length::Zero)))
    } else if a.mode == Mode::Null {
        Some(Some((rank_mode(numeric_rank(b.mode)->0), Length::Zero)))
    } else if b.mode == Mode::Null {
        Some(Some((rank_mode(numeric_rank(a.mode)->0), Length::Zero)))
    } else {
        let ra = numeric_rank(a.mode)->0;
        let rb = numeric_rank(b.mode)->0;
        Some(Some((rank_mode(if ra >= rb { ra } else { rb }), binary_length(a.length, b.length))))
    }
}

/// The result type a lattice answer describes.
pub open spec fn lattice_type(o: Option<(Mode, Length)>, r: RType) -> bool {
    match o {
        Some((m, l)) => is_plain_type(r, m, l),
        None => is_unknown_type(r),
    }
}

fn rank_of(m: Mode) -> (r: u8)
    requires
        numeric_rank(m) is Some,
    ensures
        r as int == numeric_rank(m)->0,
{
    match m {
        Mode::Logical => 0,
        Mode::Integer => 1,
        Mode::Double => 2,
        _ => 3,
    }
}

fn mode_of_rank(r: u8) -> (m: Mode)
    ensures
        m == rank_mode(r as int),
{
    if r <= 1 {
        Mode::Integer
    } else if r == 2 {
        Mode::Double
    } else {
        Mode::Complex
    }
}

fn refuses(m: Mode) -> (r: bool)
    ensures
        r == arith_refuses(m),
{
    match m {
        Mode::Character | Mode::Raw | Mode::List | Mode::Function => true,
        _ => false,
    }
}

/// Arithmetic on two types (see `arith_spec`).
pub fn arith_types(a: &RType, b: &RType) -> (r: Option<RType>)
    ensures
        match arith_spec(*a, *b) {
            None => r is None,
            Some(o) => r matches Some(t) && lattice_type(o, t),
        },
{
    if refuses(a.mode) || refuses(b.mode) {
        return None;
    }
    if a.mode == Mode::Opaque || a.mode == Mode::Union || b.mode == Mode::Opaque || b.mode == Mode::Union {
        return Some(RType::unknown());
    }
    if a.mode == Mode::Null && b.mode == Mode::Null {
        return Some(RType::new(Mode::Integer, Length::Zero));
    }
    if a.mode == Mode::Null {
        return Some(RType::new(mode_of_rank(rank_of(b.mode)), Length::Zero));
    }
    if b.mode == Mode::Null {
        return Some(RType::new(mode_of_rank(rank_of(a.mode)), Length::Zero));
    }
    let ra = rank_of(a.mode);
    let rb = rank_of(b.mode);
    Some(RType::new(mode_of_rank(if ra >= rb { ra } else { rb }), recycled_length(a.length, b.length)))
}

/// Whether comparison on a mode fails.
pub open spec fn compare_refuses(m: Mode) -> bool {
    m == Mode::List || m == Mode::Function
}

/// The mode an operand is compared by: a list's element mode when its
/// elements are known, atomic and of one mode; opaque for a list whose
/// elements are unknown or mixed atomic; none (the list itself) when an
/// element is not atomic.
pub open spec fn leaf_mode(t: RType) -> Option<Mode> {
    if t.mode != Mode::List {
        None
    } else {
        match t.columns {
            None => Some(Mode::Opaque),
            Some(s) => if !s.complete {
                Some(Mode::Opaque)
            } else if !(forall|i: int| 0 <= i < s.columns@.len() ==> #[trigger] atomic_leaf(s.columns@[i].1.mode)) {
                None
            } else {
                match homogeneous_spec(s) {
                    Some(t) => Some(t.mode),
                    None => Some(Mode::Opaque),
                }
            },
        }
    }
}

/// The common type of a schema's fields: the first field's type when
/// every field has a structurally equal type.
pub open spec fn homogeneous_spec(s: ColumnSchema) -> Option<RType> {
    if s.columns@.len() > 0 && forall|i: int| 0 <= i < s.columns@.len() ==> #[trigger] ty_eq(s.columns@[i].1, s.columns@[0].1) {
        Some(s.columns@[0].1)
    } else {
        None
    }
}

/// The common type of a schema's fields (see `homogeneous_spec`).
pub fn homogeneous_element_type(s: &ColumnSchema) -> (r: Option<RType>)
    ensures
        match homogeneous_spec(*s) {
            Some(t) => r matches Some(x) && ty_eq(x, t),
            None => r is None,
        },
{
    if s.columns.len() == 0 {
        return None;
    }
    let mut j: usize = 0;
    while j < s.columns.len()
        invariant
            0 < s.columns@.len(),
            j <= s.columns@.len(),
            forall|k: int| 0 <= k < j ==> #[trigger] ty_eq(s.columns@[k].1, s.columns@[0].1),
        decreases s.columns.len() - j,
    {
        if !crate::types::same_type(&s.columns[j].1, &s.columns[0].1) {
            return None;
        }
        j = j + 1;
    }
    Some(copy_type(&s.columns[0].1))
}

/// Whether a list element mode is atomic (or `NULL`).
pub open spec fn atomic_leaf(m: Mode) -> bool {
    m == Mode::Logical || m == Mode::Integer || m == Mode::Double || m == Mode::Complex || m == Mode::Character || m
        == Mode::Raw || m == Mode::Null
}

/// The mode an operand is compared by (see `leaf_mode`).
pub open spec fn comparable_mode(t: RType) -> Mode {
    match leaf_mode(t) {
        Some(m) => m,
        None => t.mode,
    }
}

/// The type of comparing a list's elements: a vector of the list's length
/// in its elements' common mode (see `leaf_mode`).
pub fn equality_list_leaf_type(value: &RType) -> (r: Option<RType>)
    ensures
        match leaf_mode(*value) {
            Some(m) => r matches Some(t) && is_plain_type(t, m, value.length),
            None => r is None,
        },
{
    if value.mode != Mode::List {
        return None;
    }
    let schema = match &value.columns {
        None => return Some(RType::new(Mode::Opaque, value.length)),
        Some(s) => s,
    };
    if !schema.complete {
        return Some(RType::new(Mode::Opaque, value.length));
    }
    let mut i: usize = 0;
    while i < schema.columns.len()
        invariant
            i <= schema.columns@.len(),
            value.mode == Mode::List,
            value.columns == Some(*schema),
            schema.complete,
            forall|k: int| 0 <= k < i ==> #[trigger] atomic_leaf(schema.columns@[k].1.mode),
        decreases schema.columns.len() - i,
    {
        let m = schema.columns[i].1.mode;
        match m {
            Mode::Logical | Mode::Integer | Mode::Double | Mode::Complex | Mode::Character | Mode::Raw | Mode::Null => {},
            _ => {
                assert(!atomic_leaf(schema.columns@[i as int].1.mode));
                return None;
            },
        }
        i = i + 1;
    }
    match homogeneous_element_type(schema) {
        Some(t) => Some(RType::new(t.mode, value.length)),
        None => Some(RType::new(Mode::Opaque, value.length)),
    }
}

/// Two known lengths that do not divide evenly, which R recycles with a
/// warning.
pub open spec fn uneven_lengths(a: Length, b: Length) -> Option<(usize, usize)> {
    match (a, b) {
        (Length::Known(x), Length::Known(y)) => if x > 0 && y > 0 && (if x >= y {
            x % y
        } else {
            y % x
        }) != 0 {
            Some((x, y))
        } else {
            None
        },
        _ => None,
    }
}

/// Two known lengths that do not divide evenly (see `uneven_lengths`).
pub fn non_divisible_recycling(a: Length, b: Length) -> (r: Option<(usize, usize)>)
    ensures
        r == uneven_lengths(a, b),
{
    match (a, b) {
        (Length::Known(x), Length::Known(y)) => {
            if x > 0 && y > 0 && (if x >= y {
                x % y
            } else {
                y % x
            }) != 0 {
                Some((x, y))
            } else {
                None
            }
        },
        _ => None,
    }
}

/// Whether a binary operator dispatches S3 methods.
pub open spec fn dispatches(op: BinOpKind) -> bool {
    !(op == BinOpKind::In || op == BinOpKind::Colon || op == BinOpKind::PipeForward || op == BinOpKind::PipeNative || op
        == BinOpKind::AndAnd || op == BinOpKind::OrOr)
}

/// Whether a data-frame operand takes the operation.
pub open spec fn frame_applies(op: BinOpKind, a: RType, b: RType) -> bool {
    (comparison_spec(op) || logic_spec(op) || arithmetic_spec(op)) && (class_has(a.class, "data.frame"@) || class_has(
        b.class,
        "data.frame"@,
    ))
}

/// Whether a comparison mixes a character operand with a non-character
/// atomic one (RY033).
pub open spec fn mixed_character(a: RType, b: RType) -> bool {
    let ok = |m: Mode| m != Mode::Opaque && m != Mode::Null && m != Mode::List && m != Mode::Function && m != Mode::Union;
    &&& (a.mode == Mode::Character) != (b.mode == Mode::Character)
    &&& ok(a.mode)
    &&& ok(b.mode)
    &&& !(class_has(a.class, "factor"@) || class_has(b.class, "factor"@))
}

/// Whether a logical operator refuses a mode (RY031).
pub open spec fn logic_refuses(m: Mode) -> bool {
    m == Mode::Character || m == Mode::List || m == Mode::Function
}

pub open spec fn report(sev: Severity, span: Span, code: Seq<char>, msg: Seq<char>) -> Seq<(Severity, Span, Seq<char>, Seq<char>)> {
    seq![(sev, span, code, msg)]
}

pub open spec fn ry033_message(a: Mode, b: Mode) -> Seq<char> {
    "comparing `"@ + mode_text(a) + "` with `"@ + mode_text(b)
        + "`; R coerces the numeric value to character and compares lexicographically, which is rarely intended"@
}

pub open spec fn ry030_message(a: Mode, b: Mode) -> Seq<char> {
    "cannot compare `"@ + mode_text(a) + "` with `"@ + mode_text(b) + "`"@
}

pub open spec fn ry031_message(a: Mode, b: Mode) -> Seq<char> {
    "logical op applied to `"@ + mode_text(a) + "` and `"@ + mode_text(b) + "`"@
}

pub open spec fn null_arith_message() -> Seq<char> {
    "arithmetic with `NULL` produces `numeric(0)`; the operand is known to be NULL"@
}

pub open spec fn ry040_message(a: Mode, b: Mode) -> Seq<char> {
    "cannot apply arithmetic op to `"@ + mode_text(a) + "` and `"@ + mode_text(b) + "`"@
}

pub open spec fn ry041_message(x: usize, y: usize) -> Seq<char> {
    "vector lengths "@ + decimal(x as nat) + " and "@ + decimal(y as nat) + " do not divide evenly; R will recycle with a warning"@
}

pub open spec fn factor_message() -> Seq<char> {
    "arithmetic on a factor produces `NA`; operate on its levels or convert it explicitly"@
}

/// Whether an operand is a factor.
pub open spec fn has_factor(a: RType, b: RType) -> bool {
    class_has(a.class, "factor"@) || class_has(b.class, "factor"@)
}

/// The findings of a binary operation (see `binop_result`).
pub open spec fn binop_reports(
    op: BinOpKind,
    a: RType,
    b: RType,
    span: Span,
    known_null: bool,
    s3: Option<RType>,
) -> Seq<(Severity, Span, Seq<char>, Seq<char>)> {
    if op == BinOpKind::Colon || op == BinOpKind::In || frame_applies(op, a, b) || (dispatches(op) && s3 is Some) {
        seq![]
    } else if comparison_spec(op) {
        if compare_refuses(comparable_mode(a)) || compare_refuses(comparable_mode(b)) {
            report(Severity::Error, span, "RY030"@, ry030_message(a.mode, b.mode))
        } else if mixed_character(a, b) {
            report(Severity::Warning, span, "RY033"@, ry033_message(a.mode, b.mode))
        } else {
            seq![]
        }
    } else if logic_spec(op) {
        if logic_refuses(a.mode) || logic_refuses(b.mode) {
            report(Severity::Error, span, "RY031"@, ry031_message(a.mode, b.mode))
        } else if op == BinOpKind::AndAnd || op == BinOpKind::OrOr {
            scalar_logical_reports(op, a.length, span) + scalar_logical_reports(op, b.length, span)
        } else {
            seq![]
        }
    } else if known_null && (a.mode == Mode::Null || b.mode == Mode::Null) {
        report(Severity::Error, span, "RY040"@, null_arith_message())
    } else if has_factor(a, b) {
        report(Severity::Warning, span, "RY042"@, factor_message())
    } else if arith_spec(a, b) is Some {
        match uneven_lengths(a.length, b.length) {
            Some((x, y)) => report(Severity::Warning, span, "RY041"@, ry041_message(x, y)),
            None => seq![],
        }
    } else {
        report(Severity::Error, span, "RY040"@, ry040_message(a.mode, b.mode))
    }
}

/// The type `:` gives: an integer vector of unknown length between
/// integer (or logical) endpoints, a double vector between other numeric
/// endpoints, opaque for endpoints that are not numeric.
pub open spec fn colon_type(a: RType, b: RType, r: RType) -> bool {
    if (a.mode == Mode::Integer || a.mode == Mode::Logical) && (b.mode == Mode::Integer || b.mode == Mode::Logical) {
        is_plain_type(r, Mode::Integer, Length::Unknown)
    } else if colon_numeric(a.mode) && colon_numeric(b.mode) {
        is_plain_type(r, Mode::Double, Length::Unknown)
    } else {
        is_unknown_type(r)
    }
}

/// Whether a mode is a numeric endpoint of `:`.
pub open spec fn colon_numeric(m: Mode) -> bool {
    m == Mode::Logical || m == Mode::Integer || m == Mode::Double
}

/// The result of a binary operation: `:` and `%in%` by their own rules, a
/// data-frame operand through the frame rule, a dispatched S3 method's
/// result `s3`, then comparison, logic and arithmetic by the storage-mode
/// rules; a failed operation is opaque.
pub open spec fn binop_result(op: BinOpKind, a: RType, b: RType, known_null: bool, s3: Option<RType>, r: RType) -> bool {
    if op == BinOpKind::Colon {
        colon_type(a, b, r)
    } else if op == BinOpKind::In {
        is_plain_type(r, Mode::Logical, a.length)
    } else if frame_applies(op, a, b) {
        frame_binop_spec(op, a, b, Some(r))
    } else if dispatches(op) && s3 is Some {
        r == s3->0
    } else if comparison_spec(op) {
        if compare_refuses(comparable_mode(a)) || compare_refuses(comparable_mode(b)) {
            is_unknown_type(r)
        } else {
            is_plain_type(r, Mode::Logical, binary_length(a.length, b.length))
        }
    } else if logic_spec(op) {
        if logic_refuses(a.mode) || logic_refuses(b.mode) {
            is_unknown_type(r)
        } else if op == BinOpKind::AndAnd || op == BinOpKind::OrOr {
            is_plain_type(r, Mode::Logical, Length::One)
        } else {
            is_plain_type(r, Mode::Logical, binary_length(a.length, b.length))
        }
    } else if known_null && (a.mode == Mode::Null || b.mode == Mode::Null) {
        is_unknown_type(r)
    } else {
        match arith_spec(a, b) {
            Some(o) => lattice_type(o, r),
            None => is_unknown_type(r),
        }
    }
}

fn compare_refused(t: &RType) -> (r: bool)
    ensures
        r == compare_refuses(comparable_mode(*t)),
{
    let m = match equality_list_leaf_type(t) {
        Some(leaf) => leaf.mode,
        None => t.mode,
    };
    m == Mode::List || m == Mode::Function
}

fn is_mixed_character(a: &RType, b: &RType) -> (r: bool)
    ensures
        r == mixed_character(*a, *b),
{
    let ok = |m: Mode| -> (o: bool)
        ensures
            o == (m != Mode::Opaque && m != Mode::Null && m != Mode::List && m != Mode::Function && m != Mode::Union),
        { m != Mode::Opaque && m != Mode::Null && m != Mode::List && m != Mode::Function && m != Mode::Union };
    (a.mode == Mode::Character) != (b.mode == Mode::Character) && ok(a.mode) && ok(b.mode) && !(a.class.contains(
        "factor",
    ) || b.class.contains("factor"))
}

fn two_mode_message(head: &str, a: Mode, middle: &str, b: Mode, tail: &str) -> (r: String)
    ensures
        r@ == head@ + mode_text(a) + middle@ + mode_text(b) + tail@,
{
    let mut m = String::from_str(head);
    m.append(mode_name(a));
    m.append(middle);
    m.append(mode_name(b));
    m.append(tail);
    m
}

impl Checker {
    /// Infer a binary operation on two inferred operand types and report
    /// its findings (see `binop_result` and `binop_reports`). `s3` is the
    /// result of the operator's S3 method for the operands' classes, when
    /// one is registered; `known_null_is_actionable` says that a `NULL`
    /// operand is known, not merely possible.
    pub fn infer_binop(
        &mut self,
        op: BinOpKind,
        lt: RType,
        rt: RType,
        span: Span,
        known_null_is_actionable: bool,
        s3: Option<RType>,
    ) -> (r: RType)
        ensures
            binop_result(op, lt, rt, known_null_is_actionable, s3, r),
            reports_added(*old(self), *final(self), binop_reports(op, lt, rt, span, known_null_is_actionable, s3)),
    {
        let ghost c0 = *self;
        assert(diag_views(self.diagnostics@) =~= diag_views(c0.diagnostics@) + seq![]);
        proof {
            reveal_strlit("data.frame");
            reveal_strlit("factor");
        }
        if op == BinOpKind::Colon {
            if (lt.mode == Mode::Integer || lt.mode == Mode::Logical) && (rt.mode == Mode::Integer || rt.mode
                == Mode::Logical) {
                return RType::new(Mode::Integer, Length::Unknown);
            }
            let numeric = |m: Mode| -> (r: bool)
                ensures
                    r == colon_numeric(m),
            { m == Mode::Logical || m == Mode::Integer || m == Mode::Double };
            if numeric(lt.mode) && numeric(rt.mode) {
                return RType::new(Mode::Double, Length::Unknown);
            }
            return RType::unknown();
        }
        if op == BinOpKind::In {
            return RType::new(Mode::Logical, lt.length);
        }
        if let Some(result) = data_frame_binop_result(op, &lt, &rt) {
            return result;
        }
        let dispatching = match op {
            BinOpKind::In | BinOpKind::Colon | BinOpKind::PipeForward | BinOpKind::PipeNative | BinOpKind::AndAnd
            | BinOpKind::OrOr => false,
            _ => true,
        };
        if dispatching {
            if let Some(dispatched) = s3 {
                return dispatched;
            }
        }
        let is_logic = match op {
            BinOpKind::And | BinOpKind::AndAnd | BinOpKind::Or | BinOpKind::OrOr => true,
            _ => false,
        };
        if is_comparison(op) {
            if compare_refused(&lt) || compare_refused(&rt) {
                let message = two_mode_message("cannot compare `", lt.mode, "` with `", rt.mode, "`");
                self.emit(Severity::Error, span, "RY030", message);
                return RType::unknown();
            }
            if is_mixed_character(&lt, &rt) {
                let message = two_mode_message(
                    "comparing `",
                    lt.mode,
                    "` with `",
                    rt.mode,
                    "`; R coerces the numeric value to character and compares lexicographically, which is rarely intended",
                );
                self.emit(Severity::Warning, span, "RY033", message);
            }
            return RType::new(Mode::Logical, recycled_length(lt.length, rt.length));
        }
        if is_logic {
            let bad = |m: Mode| -> (o: bool)
                ensures
                    o == logic_refuses(m),
                { m == Mode::Character || m == Mode::List || m == Mode::Function };
            if bad(lt.mode) || bad(rt.mode) {
                let message = two_mode_message("logical op applied to `", lt.mode, "` and `", rt.mode, "`");
                self.emit(Severity::Error, span, "RY031", message);
                return RType::unknown();
            }
            if op == BinOpKind::AndAnd || op == BinOpKind::OrOr {
                self.emit_scalar_logical_length(op, lt.length, span);
                let ghost c1 = *self;
                self.emit_scalar_logical_length(op, rt.length, span);
                assert(diag_views(self.diagnostics@) =~= diag_views(c0.diagnostics@) + (if c0.discarding {
                    seq![]
                } else {
                    binop_reports(op, lt, rt, span, known_null_is_actionable, s3)
                }));
                return RType::new(Mode::Logical, Length::One);
            }
            return RType::new(Mode::Logical, recycled_length(lt.length, rt.length));
        }
        if known_null_is_actionable && (lt.mode == Mode::Null || rt.mode == Mode::Null) {
            self.emit(
                Severity::Error,
                span,
                "RY040",
                String::from_str("arithmetic with `NULL` produces `numeric(0)`; the operand is known to be NULL"),
            );
            return RType::unknown();
        }
        let arith = arith_types(&lt, &rt);
        if lt.class.contains("factor") || rt.class.contains("factor") {
            self.emit(
                Severity::Warning,
                span,
                "RY042",
                String::from_str("arithmetic on a factor produces `NA`; operate on its levels or convert it explicitly"),
            );
            return match arith {
                Some(t) => t,
                None => RType::unknown(),
            };
        }
        match arith {
            Some(t) => {
                if let Some((x, y)) = non_divisible_recycling(lt.length, rt.length) {
                    let mut message = String::from_str("vector lengths ");
                    message.append(decimal_text(x).as_str());
                    message.append(" and ");
                    message.append(decimal_text(y).as_str());
                    message.append(" do not divide evenly; R will recycle with a warning");
                    self.emit(Severity::Warning, span, "RY041", message);
                }
                t
            },
            None => {
                let message = two_mode_message("cannot apply arithmetic op to `", lt.mode, "` and `", rt.mode, "`");
                self.emit(Severity::Error, span, "RY040", message);
                RType::unknown()
            },
        }
    }
}

} // verus!
