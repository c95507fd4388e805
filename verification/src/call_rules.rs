//! Rules on single calls: RY101 for `identical()` between a single-bracket
//! list subset and an atomic literal, and RY096 for `hasArg()` naming a
//! parameter the enclosing function does not have.
use vstd::prelude::*;
use crate::ast::{Arg, Expr, IndexKind, Span};
use crate::checker::{Checker, Severity, diag_views, reports_added};
use crate::matching::opt_int;
use crate::scope::{Scope, has_name, names_contain};
use crate::text::str_eq;
use crate::types::{Length, Mode, RType, is_plain_type};

verus! {

/// `x["name"]`, `x[1]` or `x[1.5]`: a single-bracket subset by one literal.
pub open spec fn literal_single_subset(a: Arg) -> bool {
    match a.value {
        Expr::Index { kind, args, .. } => kind == IndexKind::Single && args@.len() == 1 && (args@[0].value is String
            || args@[0].value is Integer || args@[0].value is Double),
        _ => false,
    }
}

/// An atomic literal: logical, integer, double or string.
pub open spec fn atomic_literal(a: Arg) -> bool {
    a.value is Logical || a.value is Integer || a.value is Double || a.value is String
}

/// The first argument from `from` on that is a literal single-bracket
/// subset.
pub open spec fn first_subset(args: Seq<Arg>, from: int) -> Option<int>
    decreases args.len() - from,
{
    if from < 0 || from >= args.len() {
        None
    } else if literal_single_subset(args[from]) {
        Some(from)
    } else {
        first_subset(args, from + 1)
    }
}

/// The subset argument of an `identical()` call that compares it with an
/// atomic literal given as another argument.
pub open spec fn identical_site(name: Seq<char>, args: Seq<Arg>) -> Option<int> {
    if name == "identical"@ && args.len() >= 2 {
        match first_subset(args, 0) {
            Some(i) => if exists|j: int| 0 <= j < args.len() && j != i && #[trigger] atomic_literal(args[j]) {
                Some(i)
            } else {
                None
            },
            None => None,
        }
    } else {
        None
    }
}

fn is_literal_single_subset(a: &Arg) -> (r: bool)
    ensures
        r == literal_single_subset(*a),
{
    match &a.value {
        Expr::Index { kind, args, .. } => {
            *kind == IndexKind::Single && args.len() == 1 && match &args[0].value {
                Expr::String(..) | Expr::Integer(..) | Expr::Double(..) => true,
                _ => false,
            }
        },
        _ => false,
    }
}

fn is_atomic_literal(a: &Arg) -> (r: bool)
    ensures
        r == atomic_literal(*a),
{
    match &a.value {
        Expr::Logical(..) | Expr::Integer(..) | Expr::Double(..) | Expr::String(..) => true,
        _ => false,
    }
}

fn find_first_subset(args: &[Arg]) -> (r: Option<usize>)
    ensures
        opt_int(r) == first_subset(args@, 0),
        r matches Some(i) ==> i < args@.len(),
{
    let mut i: usize = 0;
    while i < args.len()
        invariant
            i <= args@.len(),
            first_subset(args@, 0) == first_subset(args@, i as int),
        decreases args.len() - i,
    {
        if is_literal_single_subset(&args[i]) {
            return Some(i);
        }
        i = i + 1;
    }
    None
}

/// The argument of `identical(...)` that RY101 may concern (see
/// `identical_site`).
pub fn identical_list_subset_site(lookup_name: &str, args: &[Arg]) -> (r: Option<usize>)
    ensures
        opt_int(r) == identical_site(lookup_name@, args@),
{
    proof {
        reveal_strlit("identical");
    }
    if !str_eq(lookup_name, "identical") || args.len() < 2 {
        return None;
    }
    let i = match find_first_subset(args) {
        Some(i) => i,
        None => return None,
    };
    let mut j: usize = 0;
    while j < args.len()
        invariant
            j <= args@.len(),
            i < args@.len(),
            first_subset(args@, 0) == Some(i as int),
            lookup_name@ == "identical"@,
            args@.len() >= 2,
            forall|k: int| 0 <= k < j && k != i ==> !#[trigger] atomic_literal(args@[k]),
        decreases args.len() - j,
    {
        if j != i && is_atomic_literal(&args[j]) {
            return Some(i);
        }
        j = j + 1;
    }
    None
}

/// Whether the base of a subset is known to hold a list: its type is a
/// list, or it is a name bound to a value built by `list(...)`.
pub open spec fn list_origin(base: Expr, base_type: RType, scope: Scope) -> bool {
    base_type.mode == Mode::List || match base {
        Expr::Ident { name, .. } => has_name(scope.list_origin_bindings@, name@),
        _ => false,
    }
}

/// Whether the subset at `site` has a base known to hold a list.
pub open spec fn site_on_list(args: Seq<Arg>, site: int, base_type: RType, scope: Scope) -> bool {
    match args[site].value {
        Expr::Index { base, .. } => list_origin(*base, base_type, scope),
        _ => false,
    }
}

pub open spec fn ry101_message() -> Seq<char> {
    "single-bracket list subset remains a list, so `identical()` with an atomic scalar is always FALSE; use `[[` to extract the element"@
}

/// The name `hasArg(...)` asks about: its first argument, a name or a
/// string.
pub open spec fn has_arg_name(args: Seq<Arg>) -> Option<Seq<char>> {
    if args.len() > 0 {
        match args[0].value {
            Expr::Ident { name, .. } => Some(name@),
            Expr::String(s, _) => Some(s@),
            _ => None,
        }
    } else {
        None
    }
}

pub open spec fn ry096_message(name: Seq<char>) -> Seq<char> {
    "`hasArg("@ + name + ")` names a parameter that is not a formal; it is always FALSE"@
}

/// The findings of `hasArg(name)` inside functions whose formals are
/// `frames`: RY096 when the innermost has neither `...` nor `name`.
pub open spec fn has_arg_reports(args: Seq<Arg>, frames: Seq<crate::checker::EnclosingFrame>, span: Span) -> Seq<
    (Severity, Span, Seq<char>, Seq<char>),
> {
    match has_arg_name(args) {
        Some(n) => if frames.len() > 0 && !has_name(frames.last().names@, "..."@) && !has_name(frames.last().names@, n) {
            seq![(Severity::Warning, span, "RY096"@, ry096_message(n))]
        } else {
            seq![]
        },
        None => seq![],
    }
}

impl Checker {
    /// RY101: `identical()` between a single-bracket subset of a list and
    /// an atomic literal. `site` is the argument `identical_list_subset_site`
    /// found and `base_type` the inferred type of that subset's base.
    pub fn check_identical_list_subset(&mut self, args: &[Arg], site: usize, base_type: &RType, scope: &Scope)
        requires
            site < args@.len(),
        ensures
            reports_added(
                *old(self),
                *final(self),
                if site_on_list(args@, site as int, *base_type, *scope) {
                    seq![(Severity::Warning, args@[site as int].span, "RY101"@, ry101_message())]
                } else {
                    seq![]
                },
            ),
    {
        let ghost c0 = *self;
        assert(diag_views(self.diagnostics@) =~= diag_views(c0.diagnostics@) + seq![]);
        let on_list = match &args[site].value {
            Expr::Index { base, .. } => {
                base_type.mode == Mode::List || match &**base {
                    Expr::Ident { name, .. } => scope.has_list_origin(name.as_str()),
                    _ => false,
                }
            },
            _ => false,
        };
        if on_list {
            self.emit(
                Severity::Warning,
                args[site].span,
                "RY101",
                String::from_str(
                    "single-bracket list subset remains a list, so `identical()` with an atomic scalar is always FALSE; use `[[` to extract the element",
                ),
            );
        }
    }

    /// `hasArg(name)`: a logical scalar, with RY096 when the enclosing
    /// function has neither `...` nor a formal `name`.
    pub fn check_has_arg(&mut self, args: &[Arg], span: Span) -> (r: RType)
        ensures
            is_plain_type(r, Mode::Logical, Length::One),
            reports_added(*old(self), *final(self), has_arg_reports(args@, old(self).enclosing_formals@, span)),
    {
        let ghost c0 = *self;
        assert(diag_views(self.diagnostics@) =~= diag_views(c0.diagnostics@) + seq![]);
        proof {
            reveal_strlit("...");
        }
        let name: Option<&str> = if args.len() > 0 {
            match &args[0].value {
                Expr::Ident { name, .. } => Some(name.as_str()),
                Expr::String(s, _) => Some(s.as_str()),
                _ => None,
            }
        } else {
            None
        };
        if let Some(n) = name {
            let k = self.enclosing_formals.len();
            if k > 0 {
                let frame = &self.enclosing_formals[k - 1];
                if !names_contain(&frame.names, "...") && !names_contain(&frame.names, n) {
                    let mut message = String::from_str("`hasArg(");
                    message.append(n);
                    message.append(")` names a parameter that is not a formal; it is always FALSE");
                    self.emit(Severity::Warning, span, "RY096", message);
                }
            }
        }
        RType::scalar(Mode::Logical)
    }
}

} // verus!
