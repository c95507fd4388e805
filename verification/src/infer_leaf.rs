//! The leaf cases of expression inference: literals, a name the scope does
//! not bind (RY010), the unary operators (RY020, RY021), a comparison with
//! an `NA` literal (RY034) and `:` between integer literals.
use vstd::prelude::*;
use crate::ast::{BinOpKind, Expr, Span, UnaryOpKind};
use crate::checker::{Checker, Severity, diag_views, reports_added};
use crate::modes::{mode_name, mode_text};
use crate::types::{Length, Mode, RType, copy_type, is_plain_type, is_unknown_type, ty_eq};
use crate::construct::literal_int;
use crate::subscript::extract_literal_int;

verus! {

/// The type of a literal: a scalar of its mode, `NULL`, or the type an
/// `NA` literal carries; `None` for any other expression.
pub open spec fn literal_type(e: Expr, r: Option<RType>) -> bool {
    match e {
        Expr::Logical(..) => r matches Some(t) && is_plain_type(t, Mode::Logical, Length::One),
        Expr::Integer(..) => r matches Some(t) && is_plain_type(t, Mode::Integer, Length::One),
        Expr::Double(..) => r matches Some(t) && is_plain_type(t, Mode::Double, Length::One),
        Expr::String(..) => r matches Some(t) && is_plain_type(t, Mode::Character, Length::One),
        Expr::Null(..) => r matches Some(t) && is_plain_type(t, Mode::Null, Length::Zero),
        Expr::Na(na, _) => r matches Some(t) && ty_eq(t, na),
        _ => r is None,
    }
}

/// The type of a literal expression (see `literal_type`).
pub fn infer_literal(e: &Expr) -> (r: Option<RType>)
    ensures
        literal_type(*e, r),
{
    match e {
        Expr::Logical(..) => Some(RType::scalar(Mode::Logical)),
        Expr::Integer(..) => Some(RType::scalar(Mode::Integer)),
        Expr::Double(..) => Some(RType::scalar(Mode::Double)),
        Expr::String(..) => Some(RType::scalar(Mode::Character)),
        Expr::Null(..) => Some(RType::new(Mode::Null, Length::Zero)),
        Expr::Na(t, _) => Some(copy_type(t)),
        _ => None,
    }
}

/// What the checker knows of a name the scope does not bind.
#[derive(Debug)]
pub struct NameFacts {
    /// The name is an ambient global of the stubs.
    pub ambient: bool,
    /// The name is bound outside the checked sources.
    pub external: bool,
    /// The stubs' dataset of that name.
    pub dataset: Option<RType>,
    /// A function of that name is known: from the stubs, from a loaded
    /// package, or from the project.
    pub function: bool,
    /// The project defines a variable of that name elsewhere.
    pub project_variable: bool,
}

/// R's operator symbols, which a backticked name may spell.
pub open spec fn operator_symbol(s: Seq<char>) -> bool {
    ||| s == "+"@ ||| s == "-"@ ||| s == "*"@ ||| s == "/"@ ||| s == "^"@
    ||| s == "<"@ ||| s == ">"@ ||| s == "<="@ ||| s == ">="@ ||| s == "=="@
    ||| s == "!="@ ||| s == "&"@ ||| s == "|"@ ||| s == "&&"@ ||| s == "||"@
    ||| s == "!"@ ||| s == ":"@ ||| s == "<-"@ ||| s == "<<-"@ ||| s == "="@
    ||| s == "~"@ ||| s == "$"@ ||| s == "@"@ ||| s == "?"@
}

/// Whether a name holds `::` (a namespace-qualified reference).
pub open spec fn qualified_name(s: Seq<char>) -> bool {
    exists|i: int| 0 <= i && i + 1 < s.len() && #[trigger] s[i] == ':' && s[i + 1] == ':'
}

/// Whether a name spells an operator or a backticked special name, which
/// no scope can resolve.
pub open spec fn special_name(s: Seq<char>) -> bool {
    (s.len() > 0 && s[0] == '`') || s.contains('%') || operator_symbol(s)
}

/// Whether an unbound name reads as opaque without a report: the project
/// defines it elsewhere, it is namespace-qualified or spells an operator,
/// or the scope may hold an unknown data mask.
pub open spec fn unbound_name_reads_opaque(name: Seq<char>, facts: NameFacts, data_mask_unknown: bool) -> bool {
    facts.project_variable || qualified_name(name) || special_name(name) || data_mask_unknown
}

/// The type an unbound name reads as.
pub open spec fn unbound_name_type(name: Seq<char>, facts: NameFacts, data_mask_unknown: bool, r: RType) -> bool {
    if facts.ambient || facts.external {
        is_unknown_type(r)
    } else if facts.dataset is Some {
        r == facts.dataset->0
    } else if facts.function {
        is_plain_type(r, Mode::Function, Length::One)
    } else {
        is_unknown_type(r)
    }
}

pub open spec fn unbound_message(name: Seq<char>) -> Seq<char> {
    "variable `"@ + name + "` is not bound in this scope"@
}

/// The findings for an unbound name: RY010 unless something explains it.
pub open spec fn unbound_name_reports(name: Seq<char>, facts: NameFacts, data_mask_unknown: bool, span: Span) -> Seq<
    (Severity, Span, Seq<char>, Seq<char>),
> {
    if facts.ambient || facts.external || facts.dataset is Some || facts.function || unbound_name_reads_opaque(
        name,
        facts,
        data_mask_unknown,
    ) {
        seq![]
    } else {
        seq![(Severity::Warning, span, "RY010"@, unbound_message(name))]
    }
}

fn is_operator_symbol(s: &str) -> (r: bool)
    ensures
        r == operator_symbol(s@),
{
    let symbols: [&str; 24] = [
        "+", "-", "*", "/", "^", "<", ">", "<=", ">=", "==", "!=", "&", "|", "&&", "||", "!", ":", "<-", "<<-", "=", "~",
        "$", "@", "?",
    ];
    proof {
        reveal_strlit("+");
        reveal_strlit("-");
        reveal_strlit("*");
        reveal_strlit("/");
        reveal_strlit("^");
        reveal_strlit("<");
        reveal_strlit(">");
        reveal_strlit("<=");
        reveal_strlit(">=");
        reveal_strlit("==");
        reveal_strlit("!=");
        reveal_strlit("&");
        reveal_strlit("|");
        reveal_strlit("&&");
        reveal_strlit("||");
        reveal_strlit("!");
        reveal_strlit(":");
        reveal_strlit("<-");
        reveal_strlit("<<-");
        reveal_strlit("=");
        reveal_strlit("~");
        reveal_strlit("$");
        reveal_strlit("@");
        reveal_strlit("?");
    }
    let mut i: usize = 0;
    while i < 24
        invariant
            i <= 24,
            symbols@.len() == 24,
            symbols@ == seq![
                "+", "-", "*", "/", "^", "<", ">", "<=", ">=", "==", "!=", "&", "|", "&&", "||", "!", ":", "<-", "<<-",
                "=", "~", "$", "@", "?",
            ],
            forall|k: int| 0 <= k < i ==> s@ != (#[trigger] symbols@[k])@,
        decreases 24 - i,
    {
        if crate::text::str_eq(s, symbols[i]) {
            return true;
        }
        i = i + 1;
    }
    assert(forall|k: int| 0 <= k < 24 ==> s@ != (#[trigger] symbols@[k])@);
    false
}

pub fn is_qualified(s: &str) -> (r: bool)
    ensures
        r == qualified_name(s@),
{
    let n = s.unicode_len();
    let mut i: usize = 0;
    while i < n
        invariant
            n == s@.len(),
            i <= n,
            forall|k: int| 0 <= k < i && k + 1 < n ==> !(#[trigger] s@[k] == ':' && s@[k + 1] == ':'),
        decreases n - i,
    {
        if i + 1 < n && s.get_char(i) == ':' && s.get_char(i + 1) == ':' {
            return true;
        }
        i = i + 1;
    }
    false
}

fn is_special(s: &str) -> (r: bool)
    ensures
        r == special_name(s@),
{
    let n = s.unicode_len();
    if n > 0 && s.get_char(0) == '`' {
        return true;
    }
    let mut i: usize = 0;
    while i < n
        invariant
            n == s@.len(),
            forall|k: int| 0 <= k < i ==> #[trigger] s@[k] != '%',
        decreases n - i,
    {
        if s.get_char(i) == '%' {
            assert(s@[i as int] == '%');
            return true;
        }
        i = i + 1;
    }
    assert(!s@.contains('%'));
    is_operator_symbol(s)
}

/// The findings of a unary operator: RY020 for `-` on a mode that has no
/// negation, RY021 for `!` on a mode that has no logical value.
pub open spec fn unary_reports(op: UnaryOpKind, t: RType, span: Span, s3: Option<RType>) -> Seq<
    (Severity, Span, Seq<char>, Seq<char>),
> {
    if s3 is Some {
        seq![]
    } else if op == UnaryOpKind::Neg && (t.mode == Mode::Character || t.mode == Mode::Raw || t.mode == Mode::List
        || t.mode == Mode::Function) {
        seq![(Severity::Error, span, "RY020"@, "cannot apply unary `-` to `"@ + mode_text(t.mode) + "`"@)]
    } else if op == UnaryOpKind::Not && (t.mode == Mode::Character || t.mode == Mode::List || t.mode == Mode::Function) {
        seq![(Severity::Error, span, "RY021"@, "cannot apply `!` to `"@ + mode_text(t.mode) + "`"@)]
    } else {
        seq![]
    }
}

/// The type of a unary operation on an operand of type `t`; `s3` is what
/// an S3 method for the operator on `t`'s class returns, when one applies.
pub open spec fn unary_result(op: UnaryOpKind, t: RType, s3: Option<RType>, r: RType) -> bool {
    if s3 is Some {
        r == s3->0
    } else if op == UnaryOpKind::Neg {
        if t.mode == Mode::Character || t.mode == Mode::Raw || t.mode == Mode::List || t.mode == Mode::Function {
            is_unknown_type(r)
        } else {
            is_plain_type(
                r,
                if t.mode == Mode::Logical || t.mode == Mode::Null {
                    Mode::Integer
                } else {
                    t.mode
                },
                t.length,
            )
        }
    } else {
        is_plain_type(r, Mode::Logical, t.length)
    }
}

/// The length `a:b` has between integer literals: `|b - a| + 1`.
pub open spec fn colon_length(a: i64, b: i64) -> int {
    (if b >= a {
        b - a
    } else {
        a - b
    }) + 1
}

/// Whether an expression is an `NA` literal.
pub open spec fn na_literal(e: Expr) -> bool {
    e is Na
}

pub open spec fn na_comparison_message() -> Seq<char> {
    "comparison with `NA` always produces `NA`; use `is.na()` instead"@
}

impl Checker {
    /// The type of a name the scope does not bind (see `unbound_name_type`
    /// and `unbound_name_reports`).
    pub fn infer_unbound_name(&mut self, name: &str, facts: NameFacts, data_mask_unknown: bool, span: Span) -> (r: RType)
        ensures
            unbound_name_type(name@, facts, data_mask_unknown, r),
            reports_added(*old(self), *final(self), unbound_name_reports(name@, facts, data_mask_unknown, span)),
    {
        let ghost c0 = *self;
        let ghost f = facts;
        assert(diag_views(self.diagnostics@) =~= diag_views(c0.diagnostics@) + seq![]);
        if facts.ambient || facts.external {
            return RType::unknown();
        }
        let NameFacts { dataset, function, project_variable, .. } = facts;
        if let Some(t) = dataset {
            return t;
        }
        if function {
            return RType::scalar(Mode::Function);
        }
        if project_variable || is_qualified(name) || is_special(name) || data_mask_unknown {
            return RType::unknown();
        }
        let mut message = String::from_str("variable `");
        message.append(name);
        message.append("` is not bound in this scope");
        self.emit(Severity::Warning, span, "RY010", message);
        RType::unknown()
    }

    /// The type of a unary operation (see `unary_result` and
    /// `unary_reports`).
    pub fn infer_unary(&mut self, op: UnaryOpKind, t: RType, span: Span, s3: Option<RType>) -> (r: RType)
        ensures
            unary_result(op, t, s3, r),
            reports_added(*old(self), *final(self), unary_reports(op, t, span, s3)),
    {
        let ghost c0 = *self;
        assert(diag_views(self.diagnostics@) =~= diag_views(c0.diagnostics@) + seq![]);
        if let Some(dispatched) = s3 {
            return dispatched;
        }
        match op {
            UnaryOpKind::Neg => {
                if t.mode == Mode::Character || t.mode == Mode::Raw || t.mode == Mode::List || t.mode == Mode::Function {
                    let mut message = String::from_str("cannot apply unary `-` to `");
                    message.append(mode_name(t.mode));
                    message.append("`");
                    self.emit(Severity::Error, span, "RY020", message);
                    RType::unknown()
                } else {
                    let mode = if t.mode == Mode::Logical || t.mode == Mode::Null {
                        Mode::Integer
                    } else {
                        t.mode
                    };
                    RType::new(mode, t.length)
                }
            },
            UnaryOpKind::Not => {
                if t.mode == Mode::Character || t.mode == Mode::List || t.mode == Mode::Function {
                    let mut message = String::from_str("cannot apply `!` to `");
                    message.append(mode_name(t.mode));
                    message.append("`");
                    self.emit(Severity::Error, span, "RY021", message);
                }
                RType::new(Mode::Logical, t.length)
            },
        }
    }

    /// RY034: `==` or `!=` with an `NA` literal on either side.
    pub fn check_na_comparison(&mut self, op: BinOpKind, lhs: &Expr, rhs: &Expr, span: Span)
        ensures
            reports_added(
                *old(self),
                *final(self),
                if (op == BinOpKind::Eq || op == BinOpKind::Ne) && (na_literal(*lhs) || na_literal(*rhs)) {
                    seq![(Severity::Warning, span, "RY034"@, na_comparison_message())]
                } else {
                    seq![]
                },
            ),
    {
        let ghost c0 = *self;
        assert(diag_views(self.diagnostics@) =~= diag_views(c0.diagnostics@) + seq![]);
        let na = match lhs {
            Expr::Na(..) => true,
            _ => match rhs {
                Expr::Na(..) => true,
                _ => false,
            },
        };
        if (op == BinOpKind::Eq || op == BinOpKind::Ne) && na {
            self.emit(
                Severity::Warning,
                span,
                "RY034",
                String::from_str("comparison with `NA` always produces `NA`; use `is.na()` instead"),
            );
        }
    }
}

/// The type of `a:b` when both ends are whole-number literals: an integer
/// vector of length `|b - a| + 1`; `None` otherwise, or when the
/// difference leaves the `i64` range or the length a `usize`.
pub fn colon_literal_type(lhs: &Expr, rhs: &Expr) -> (r: Option<RType>)
    ensures
        match (literal_int(*lhs), literal_int(*rhs)) {
            (Some(a), Some(b)) => if colon_length(a, b) - 1 <= i64::MAX && colon_length(a, b) <= usize::MAX {
                r matches Some(t) && is_plain_type(t, Mode::Integer, Length::Known(colon_length(a, b) as usize))
            } else {
                r is None
            },
            _ => r is None,
        },
{
    let (a, b) = match (extract_literal_int(lhs), extract_literal_int(rhs)) {
        (Some(a), Some(b)) => (a, b),
        _ => return None,
    };
    let a: i128 = a as i128;
    let b: i128 = b as i128;
    let d: i128 = if b >= a {
        b - a
    } else {
        a - b
    };
    if d > i64::MAX as i128 || d + 1 > usize::MAX as i128 {
        return None;
    }
    let n: usize = (d + 1) as usize;
    Some(RType::new(Mode::Integer, Length::Known(n)))
}

} // verus!
