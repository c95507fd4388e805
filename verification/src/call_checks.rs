//! Call-site diagnostics decided by the call's own syntax and the types
//! already at hand: misplaced comparisons, `sprintf` arity, vector
//! operands of scalar logical operators, non-function callees, and
//! columns a schema lacks.
use vstd::prelude::*;
use crate::ast::{Arg, BinOpKind, Expr, Span};
use crate::callsites::{printf_argument_count, printf_from};
use crate::checker::{Checker, Severity, diag_views, reports_added};
use crate::condition::{comparison_spec, is_comparison, op_symbol, op_text};
use crate::literals::{decimal, decimal_text};
use crate::modes::{mode_name, mode_text};
use crate::subscript::listed;
use crate::text::str_eq;
use crate::types::{ColumnSchema, Length, Mode, RType, is_unknown_type};

verus! {

/// The span of a comparison that is a call's first argument.
pub open spec fn first_comparison(args: Seq<Arg>) -> Option<Span> {
    if args.len() > 0 {
        match args[0].value {
            Expr::BinOp { op, span, .. } => if comparison_spec(op) {
                Some(span)
            } else {
                None
            },
            _ => None,
        }
    } else {
        None
    }
}

/// The RY093 message.
pub open spec fn aggregate_message(name: Seq<char>) -> Seq<char> {
    "comparison is inside `"@ + name + "()`; compare `"@ + name + "(x)` instead"@
}

/// The RY093 report: a comparison as the first argument of `length` or
/// `nchar`.
pub open spec fn aggregate_reports(name: Seq<char>, args: Seq<Arg>) -> Seq<(Severity, Span, Seq<char>, Seq<char>)> {
    if (name == "length"@ || name == "nchar"@) && first_comparison(args) is Some {
        seq![(Severity::Warning, first_comparison(args)->0, "RY093"@, aggregate_message(name))]
    } else {
        seq![]
    }
}

/// The numeric math functions a comparison is misplaced in.
pub open spec fn math_functions() -> Seq<Seq<char>> {
    seq![
        "abs"@, "sqrt"@, "exp"@, "log"@, "log2"@, "log10"@, "log1p"@, "floor"@, "ceiling"@, "round"@,
        "trunc"@
    ]
}

/// The RY100 message.
pub open spec fn math_message() -> Seq<char> {
    "comparison directly inside a numeric math function is usually a parenthesization mistake; compare the math result instead"@
}

/// The RY100 report: a comparison as the first argument of a numeric
/// math function.
pub open spec fn math_reports(name: Seq<char>, args: Seq<Arg>) -> Seq<(Severity, Span, Seq<char>, Seq<char>)> {
    if listed(math_functions(), name) && first_comparison(args) is Some {
        seq![(Severity::Warning, first_comparison(args)->0, "RY100"@, math_message())]
    } else {
        seq![]
    }
}

/// The RY094 message.
pub open spec fn printf_message(required: nat, provided: nat) -> Seq<char> {
    "format string requires "@ + decimal(required) + " value argument(s), but "@ + decimal(provided)
        + " provided"@
}

/// The RY094 report: a literal `sprintf`/`gettextf` format needing more
/// value arguments than the call passes.
pub open spec fn printf_reports(name: Seq<char>, args: Seq<Arg>) -> Seq<(Severity, Span, Seq<char>, Seq<char>)> {
    if (name == "sprintf"@ || name == "gettextf"@) && args.len() > 0 {
        match args[0].value {
            Expr::String(format, span) => match printf_from(format@, 0, 0) {
                Some(required) => if args.len() - 1 < required {
                    seq![(Severity::Warning, span, "RY094"@, printf_message(required, (args.len() - 1) as nat))]
                } else {
                    seq![]
                },
                None => seq![],
            },
            _ => seq![],
        }
    } else {
        seq![]
    }
}

/// The RY032 message.
pub open spec fn scalar_logical_message(op: BinOpKind, n: nat) -> Seq<char> {
    "`"@ + op_text(op) + "` applied to a length-"@ + decimal(n) + " operand; only the first element is used"@
}

/// The RY032 report: a scalar logical operator applied to an operand of
/// known length above one.
pub open spec fn scalar_logical_reports(op: BinOpKind, length: Length, span: Span) -> Seq<(Severity, Span, Seq<char>, Seq<char>)> {
    match length {
        Length::Known(n) => if n > 1 {
            seq![(Severity::Warning, span, "RY032"@, scalar_logical_message(op, n as nat))]
        } else {
            seq![]
        },
        _ => seq![],
    }
}

/// The RY070 message.
pub open spec fn not_callable_message(name: Seq<char>, mode: Mode) -> Seq<char> {
    "`"@ + name + "` is `"@ + mode_text(mode) + "`, not a function; cannot call it"@
}

/// The names of a schema's columns, in order.
pub open spec fn column_names(columns: Seq<(String, RType)>) -> Seq<Seq<char>> {
    columns.map_values(|c: (String, RType)| c.0@)
}

/// Names joined with `, `.
pub open spec fn comma_joined(names: Seq<Seq<char>>) -> Seq<char>
    decreases names.len(),
{
    if names.len() == 0 {
        seq![]
    } else if names.len() == 1 {
        names[0]
    } else {
        comma_joined(names.drop_last()) + ", "@ + names.last()
    }
}

/// The columns an RY060 message lists: at most the first five, then `...`;
/// `(none)` for an empty schema.
pub open spec fn available_columns(names: Seq<Seq<char>>) -> Seq<char> {
    if names.len() > 5 {
        comma_joined(names.take(5)) + ", ..."@
    } else if names.len() == 0 {
        "(none)"@
    } else {
        comma_joined(names)
    }
}

/// The RY060 message.
pub open spec fn undefined_column_message(col: Seq<char>, names: Seq<Seq<char>>) -> Seq<char> {
    "column `"@ + col + "` not found in data frame schema; available columns: "@ + available_columns(names)
}

/// The span of a call's first argument when it is a comparison.
fn first_comparison_span(args: &[Arg]) -> (r: Option<Span>)
    ensures
        r == first_comparison(args@),
{
    if args.len() == 0 {
        return None;
    }
    match &args[0].value {
        Expr::BinOp { op, span, .. } => {
            if is_comparison(*op) {
                Some(*span)
            } else {
                None
            }
        },
        _ => None,
    }
}

/// Whether `name` is a numeric math function.
fn is_math_function(name: &str) -> (r: bool)
    ensures
        r == listed(math_functions(), name@),
{
    let list: [&str; 11] = [
        "abs", "sqrt", "exp", "log", "log2", "log10", "log1p", "floor", "ceiling", "round", "trunc",
    ];
    let mut i: usize = 0;
    while i < 11
        invariant
            i <= 11,
            forall|k: int| 0 <= k < 11 ==> (#[trigger] list@[k])@ == math_functions()[k],
            forall|k: int| 0 <= k < i ==> math_functions()[k] != name@,
        decreases 11 - i,
    {
        if str_eq(list[i], name) {
            assert(math_functions()[i as int] == name@);
            return true;
        }
        i = i + 1;
    }
    proof {
        if listed(math_functions(), name@) {
            let k = choose|k: int| 0 <= k < math_functions().len() && #[trigger] math_functions()[k] == name@;
            assert(math_functions()[k] != name@);
        }
    }
    false
}

/// Names joined with `, `.
fn join_names(names: &Vec<&str>) -> (r: String)
    ensures
        r@ == comma_joined(names@.map_values(|s: &str| s@)),
{
    let ghost views = names@.map_values(|s: &str| s@);
    let mut out = String::new();
    if names.len() == 0 {
        return out;
    }
    out.append(names[0]);
    assert(views.take(1) =~= seq![views[0]]);
    let mut i: usize = 1;
    while i < names.len()
        invariant
            1 <= i <= names@.len(),
            views == names@.map_values(|s: &str| s@),
            out@ == comma_joined(views.take(i as int)),
        decreases names.len() - i,
    {
        out.append(", ");
        out.append(names[i]);
        assert(views.take(i + 1).drop_last() =~= views.take(i as int));
        i = i + 1;
    }
    assert(views.take(names@.len() as int) =~= views);
    out
}

impl Checker {
    /// RY093: a comparison inside `length()` or `nchar()`, which measures
    /// the comparison's result rather than the compared value.
    pub fn check_comparison_inside_aggregate(&mut self, lookup_name: &str, args: &[Arg])
        ensures
            reports_added(*old(self), *final(self), aggregate_reports(lookup_name@, args@)),
    {
        let ghost c0 = *self;
        assert(diag_views(self.diagnostics@) =~= diag_views(c0.diagnostics@) + seq![]);
        proof {
            reveal_strlit("length");
            reveal_strlit("nchar");
        }
        if !(str_eq(lookup_name, "length") || str_eq(lookup_name, "nchar")) {
            return;
        }
        if let Some(span) = first_comparison_span(args) {
            let mut message = String::from_str("comparison is inside `");
            message.append(lookup_name);
            message.append("()`; compare `");
            message.append(lookup_name);
            message.append("(x)` instead");
            self.emit(Severity::Warning, span, "RY093", message);
        }
    }

    /// RY100: a comparison directly inside a numeric math function, which
    /// coerces it to 0/1 -- usually a misplaced parenthesis.
    pub fn check_comparison_inside_math_fn(&mut self, lookup_name: &str, args: &[Arg])
        ensures
            reports_added(*old(self), *final(self), math_reports(lookup_name@, args@)),
    {
        let ghost c0 = *self;
        assert(diag_views(self.diagnostics@) =~= diag_views(c0.diagnostics@) + seq![]);
        if !is_math_function(lookup_name) {
            return;
        }
        if let Some(span) = first_comparison_span(args) {
            let message = String::from_str(
                "comparison directly inside a numeric math function is usually a parenthesization mistake; compare the math result instead",
            );
            self.emit(Severity::Warning, span, "RY100", message);
        }
    }

    /// RY094: a literal `sprintf`/`gettextf` format string that needs more
    /// value arguments than the call passes.
    pub fn check_printf_format_arity(&mut self, lookup_name: &str, args: &[Arg])
        ensures
            reports_added(*old(self), *final(self), printf_reports(lookup_name@, args@)),
    {
        let ghost c0 = *self;
        assert(diag_views(self.diagnostics@) =~= diag_views(c0.diagnostics@) + seq![]);
        proof {
            reveal_strlit("sprintf");
            reveal_strlit("gettextf");
        }
        if !(str_eq(lookup_name, "sprintf") || str_eq(lookup_name, "gettextf")) {
            return;
        }
        if args.len() == 0 {
            return;
        }
        let (format, format_span) = match &args[0].value {
            Expr::String(format, span) => (format, *span),
            _ => return,
        };
        let required = match printf_argument_count(format.as_str()) {
            Some(n) => n,
            None => return,
        };
        let provided: usize = args.len() - 1;
        if provided < required {
            let mut message = String::from_str("format string requires ");
            message.append(decimal_text(required).as_str());
            message.append(" value argument(s), but ");
            message.append(decimal_text(provided).as_str());
            message.append(" provided");
            self.emit(Severity::Warning, format_span, "RY094", message);
        }
    }

    /// RY032: a scalar logical operator (`&&`, `||`) applied to an operand
    /// of known length above one, of which only the first element is used.
    pub fn emit_scalar_logical_length(&mut self, op: BinOpKind, length: Length, span: Span)
        ensures
            reports_added(*old(self), *final(self), scalar_logical_reports(op, length, span)),
    {
        let ghost c0 = *self;
        assert(diag_views(self.diagnostics@) =~= diag_views(c0.diagnostics@) + seq![]);
        if let Length::Known(n) = length {
            if n > 1 {
                let mut message = String::from_str("`");
                message.append(op_symbol(op));
                message.append("` applied to a length-");
                message.append(decimal_text(n).as_str());
                message.append(" operand; only the first element is used");
                self.emit(Severity::Warning, span, "RY032", message);
            }
        }
    }

    /// RY070: a call of a binding that holds no function; the call's type
    /// is opaque.
    pub fn emit_not_callable(&mut self, name: &str, mode: Mode, span: Span) -> (r: RType)
        ensures
            reports_added(
                *old(self),
                *final(self),
                seq![(Severity::Error, span, "RY070"@, not_callable_message(name@, mode))],
            ),
            is_unknown_type(r),
    {
        let mut message = String::from_str("`");
        message.append(name);
        message.append("` is `");
        message.append(mode_name(mode));
        message.append("`, not a function; cannot call it");
        self.emit(Severity::Error, span, "RY070", message);
        RType::unknown()
    }

    /// RY060: a column the schema does not have, listing at most five of
    /// the columns it does have.
    pub fn emit_undefined_column(&mut self, col: &str, schema: &ColumnSchema, span: Span)
        ensures
            reports_added(
                *old(self),
                *final(self),
                seq![(Severity::Error, span, "RY060"@, undefined_column_message(col@, column_names(schema.columns@)))],
            ),
    {
        let ghost names = column_names(schema.columns@);
        let mut preview: Vec<&str> = Vec::new();
        let mut i: usize = 0;
        while i < schema.columns.len() && i < 5
            invariant
                i <= schema.columns@.len(),
                i <= 5,
                names == column_names(schema.columns@),
                preview@.len() == i,
                forall|k: int| 0 <= k < i ==> (#[trigger] preview@[k])@ == names[k],
            decreases 5 - i,
        {
            preview.push(schema.columns[i].0.as_str());
            i = i + 1;
        }
        let joined = join_names(&preview);
        proof {
            let pv = preview@.map_values(|s: &str| s@);
            if names.len() > 5 {
                assert(pv =~= names.take(5));
            } else {
                assert(pv =~= names);
            }
        }
        let mut available = String::new();
        if schema.columns.len() > 5 {
            available.append(joined.as_str());
            available.append(", ...");
        } else if preview.len() == 0 {
            available.append("(none)");
        } else {
            available.append(joined.as_str());
        }
        let mut message = String::from_str("column `");
        message.append(col);
        message.append("` not found in data frame schema; available columns: ");
        message.append(available.as_str());
        self.emit(Severity::Error, span, "RY060", message);
    }
}

} // verus!
