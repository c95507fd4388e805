//! Subscripting rules: what `x[i]`, `x[[i]]` and `x$name` yield, and the
//! literal facts about index expressions those rules read.
use vstd::prelude::*;
use crate::ast::{
    Arg, BinOpKind, Expr, IndexKind, Span, UnaryOpKind, ident_is, is_ident_named,
    lemma_call_arg_decreases,
};
use crate::modes::{mode_name, mode_text};
use crate::scope::{Scope, find_entry, lookup};
use crate::text::str_eq;
use crate::types::{
    ClassVector, Length, Mode, RType, class_has, copy_type, is_plain_type, is_unknown_type,
    lemma_member_decreases, ty_eq,
};

verus! {

/// An atomic storage mode without a field schema.
pub open spec fn atomic_spec(t: RType) -> bool {
    &&& (t.mode == Mode::Integer || t.mode == Mode::Double || t.mode == Mode::Character
        || t.mode == Mode::Logical || t.mode == Mode::Complex || t.mode == Mode::Raw)
    &&& t.columns is None
}

/// Whether `member` is an atomic vector type without fields.
pub fn atomic_mode(member: &RType) -> (r: bool)
    ensures
        r == atomic_spec(*member),
{
    match member.mode {
        Mode::Integer | Mode::Double | Mode::Character | Mode::Logical | Mode::Complex
        | Mode::Raw => member.columns.is_none(),
        _ => false,
    }
}

/// Whether a `[` receiver is table-shaped: not a matrix, and either
/// classed `data.table` or opaque.
pub fn table_index_receiver(bt: &RType) -> (r: bool)
    ensures
        r == (!class_has(bt.class, "matrix"@) && (class_has(bt.class, "data.table"@) || bt.mode
            == Mode::Opaque)),
{
    !bt.class.contains("matrix") && (bt.class.contains("data.table") || bt.mode == Mode::Opaque)
}

/// The `$`/`[[` result when no schema resolves the access: opaque for
/// list-like, functional, opaque and union bases, else a classless scalar
/// of the base's mode.
pub fn conservative_element_type(bt: &RType) -> (r: RType)
    ensures
        (bt.mode == Mode::List || bt.mode == Mode::Opaque || bt.mode == Mode::Function || bt.mode
            == Mode::Union) ==> is_unknown_type(r),
        !(bt.mode == Mode::List || bt.mode == Mode::Opaque || bt.mode == Mode::Function || bt.mode
            == Mode::Union) ==> is_plain_type(r, bt.mode, Length::One),
{
    match bt.mode {
        Mode::List | Mode::Opaque | Mode::Function | Mode::Union => RType::unknown(),
        _ => RType::new(bt.mode, Length::One),
    }
}

/// A `$` receiver that is atomic, or a nonempty union of atomic members.
pub open spec fn definitely_atomic_spec(t: RType) -> bool {
    if t.mode == Mode::Union {
        t.members is Some && t.members->0@.len() > 0 && forall|i: int|
            0 <= i < t.members->0@.len() ==> atomic_spec(#[trigger] t.members->0@[i])
    } else {
        atomic_spec(t)
    }
}

/// Whether a `$` receiver is provably atomic.
pub fn dollar_receiver_is_definitely_atomic(receiver: &RType) -> (r: bool)
    ensures
        r == definitely_atomic_spec(*receiver),
{
    if receiver.mode == Mode::Union {
        match &receiver.members {
            None => false,
            Some(members) => {
                if members.len() == 0 {
                    return false;
                }
                let mut i: usize = 0;
                while i < members.len()
                    invariant
                        i <= members@.len(),
                        receiver.members == Some(*members),
                        receiver.mode == Mode::Union,
                        forall|k: int| 0 <= k < i ==> atomic_spec(#[trigger] members@[k]),
                    decreases members.len() - i,
                {
                    if !atomic_mode(&members[i]) {
                        assert(!atomic_spec(receiver.members->0@[i as int]));
                        return false;
                    }
                    i = i + 1;
                }
                true
            },
        }
    } else {
        atomic_mode(receiver)
    }
}

/// Whether a class vector is the known empty vector.
pub open spec fn classless(c: ClassVector) -> bool {
    c.known && c.names@.len() == 0
}

/// An atomic `$` receiver may dispatch to an S3 `$` method: it carries a
/// class, or (for a union) the union or one of its members does.
pub open spec fn may_dispatch_spec(t: RType) -> bool
    decreases t,
{
    if t.mode == Mode::Union {
        ||| !classless(t.class)
        ||| (t.members is Some && exists|i: int|
            0 <= i < t.members->0@.len() && may_dispatch_spec(#[trigger] t.members->0@[i]))
    } else {
        atomic_spec(t) && !classless(t.class)
    }
}

/// Whether an atomic `$` receiver may reach a class's `$` method.
pub fn dollar_atomic_receiver_may_dispatch(receiver: &RType) -> (r: bool)
    ensures
        r == may_dispatch_spec(*receiver),
    decreases receiver,
{
    let classed = !(receiver.class.known && receiver.class.names.len() == 0);
    if receiver.mode == Mode::Union {
        if classed {
            return true;
        }
        match &receiver.members {
            None => false,
            Some(members) => {
                let mut i: usize = 0;
                while i < members.len()
                    invariant
                        i <= members@.len(),
                        receiver.members == Some(*members),
                        receiver.mode == Mode::Union,
                        forall|k: int| 0 <= k < i ==> !may_dispatch_spec(#[trigger] members@[k]),
                        classless(receiver.class),
                    decreases members.len() - i,
                {
                    proof {
                        lemma_member_decreases(*receiver, i as int);
                    }
                    if dollar_atomic_receiver_may_dispatch(&members[i]) {
                        assert(may_dispatch_spec(receiver.members->0@[i as int]));
                        return true;
                    }
                    i = i + 1;
                }
                false
            },
        }
    } else {
        atomic_mode(receiver) && classed
    }
}

/// The mode names of `ms` joined by `sep`.
pub open spec fn modes_joined(ms: Seq<RType>, sep: Seq<char>) -> Seq<char>
    decreases ms.len(),
{
    if ms.len() == 0 {
        seq![]
    } else if ms.len() == 1 {
        mode_text(ms[0].mode)
    } else {
        modes_joined(ms.drop_last(), sep) + sep + mode_text(ms.last().mode)
    }
}

/// The receiver wording of the atomic-`$` diagnostic: a union's member
/// modes joined by `` ` or ` ``, else the receiver's mode.
pub open spec fn receiver_description(t: RType) -> Seq<char> {
    if t.mode == Mode::Union && t.members is Some {
        modes_joined(t.members->0@, "` or `"@)
    } else {
        mode_text(t.mode)
    }
}

/// Describe the mode(s) of a `$` receiver for a diagnostic.
pub fn dollar_receiver_mode_description(receiver: &RType) -> (r: String)
    ensures
        r@ == receiver_description(*receiver),
{
    if receiver.mode == Mode::Union {
        if let Some(members) = &receiver.members {
            let mut out = String::new();
            if members.len() == 0 {
                return out;
            }
            out.append(mode_name(members[0].mode));
            assert(members@.take(1).drop_last() =~= seq![]);
            let mut i: usize = 1;
            while i < members.len()
                invariant
                    1 <= i <= members@.len(),
                    out@ == modes_joined(members@.take(i as int), "` or `"@),
                decreases members.len() - i,
            {
                out.append("` or `");
                out.append(mode_name(members[i].mode));
                assert(members@.take(i + 1).drop_last() =~= members@.take(i as int));
                i = i + 1;
            }
            assert(members@.take(members@.len() as int) =~= members@);
            return out;
        }
    }
    String::from_str(mode_name(receiver.mode))
}

/// The argument slot of `[.data.table` a subscript argument fills.
#[derive(Clone, Copy, PartialEq, Eq, Debug, Structural)]
pub enum SelectSlotRole {
    I,
    J,
    Sdcols,
    Other,
}

/// The `[` call a subscript argument belongs to: the receiver's type and
/// the argument's role.
#[derive(Debug)]
pub struct SelectSubscript {
    pub receiver: RType,
    pub role: SelectSlotRole,
}

/// A receiver whose `[` follows base R rules: not classed `data.table`, and
/// a classless atomic vector or list, a plain `data.frame` list, `NULL`, a
/// function, or a nonempty union of such receivers.
pub open spec fn base_receiver_spec(t: RType) -> bool
    decreases t,
{
    if class_has(t.class, "data.table"@) {
        false
    } else {
        match t.mode {
            Mode::Integer | Mode::Double | Mode::Logical | Mode::Complex | Mode::Raw
            | Mode::Character => classless(t.class),
            Mode::List => classless(t.class) || (t.class.known && t.class.names@.len() == 1
                && t.class.names@[0]@ == "data.frame"@),
            Mode::Null | Mode::Function => true,
            Mode::Opaque => false,
            Mode::Union => t.members is Some && t.members->0@.len() > 0 && forall|i: int|
                0 <= i < t.members->0@.len() ==> base_receiver_spec(#[trigger] t.members->0@[i]),
        }
    }
}

/// Whether `receiver` provably subsets by base R rules.
pub fn base_subscript_receiver(receiver: &RType) -> (r: bool)
    ensures
        r == base_receiver_spec(*receiver),
    decreases receiver,
{
    if receiver.class.contains("data.table") {
        return false;
    }
    let classless = receiver.class.known && receiver.class.names.len() == 0;
    match receiver.mode {
        Mode::Integer | Mode::Double | Mode::Logical | Mode::Complex | Mode::Raw
        | Mode::Character => classless,
        Mode::List => {
            if classless {
                return true;
            }
            receiver.class.known && receiver.class.names.len() == 1 && str_eq(
                receiver.class.names[0].as_str(),
                "data.frame",
            )
        },
        Mode::Null | Mode::Function => true,
        Mode::Opaque => false,
        Mode::Union => match &receiver.members {
            None => false,
            Some(members) => {
                if members.len() == 0 {
                    return false;
                }
                let mut i: usize = 0;
                while i < members.len()
                    invariant
                        i <= members@.len(),
                        receiver.members == Some(*members),
                        receiver.mode == Mode::Union,
                        !class_has(receiver.class, "data.table"@),
                        forall|k: int| 0 <= k < i ==> base_receiver_spec(#[trigger] members@[k]),
                    decreases members.len() - i,
                {
                    proof {
                        lemma_member_decreases(*receiver, i as int);
                    }
                    if !base_subscript_receiver(&members[i]) {
                        assert(!base_receiver_spec(receiver.members->0@[i as int]));
                        return false;
                    }
                    i = i + 1;
                }
                true
            },
        },
    }
}

/// The data.table select forms: `-<character>` in `j` or `.SDcols`;
/// `!<character>` or `!<list>` in `i` or `j`; `!<character>` in `.SDcols`.
pub open spec fn select_form_spec(role: SelectSlotRole, op: UnaryOpKind, operand: Mode) -> bool {
    match (op, role) {
        (UnaryOpKind::Neg, SelectSlotRole::J) | (UnaryOpKind::Neg, SelectSlotRole::Sdcols) => operand
            == Mode::Character,
        (UnaryOpKind::Not, SelectSlotRole::I) | (UnaryOpKind::Not, SelectSlotRole::J) => operand
            == Mode::Character || operand == Mode::List,
        (UnaryOpKind::Not, SelectSlotRole::Sdcols) => operand == Mode::Character,
        _ => false,
    }
}

/// Whether a unary operator on `operand` inside a `[` argument is a
/// data.table select form: only inside a subscript whose receiver is not
/// provably a base R object.
pub fn select_subscript_form(
    context: Option<&SelectSubscript>,
    op: UnaryOpKind,
    operand: Mode,
) -> (r: bool)
    ensures
        r == match context {
            None => false,
            Some(c) => !base_receiver_spec(c.receiver) && select_form_spec(c.role, op, operand),
        },
{
    let context = match context {
        None => return false,
        Some(c) => c,
    };
    if base_subscript_receiver(&context.receiver) {
        return false;
    }
    match (op, context.role) {
        (UnaryOpKind::Neg, SelectSlotRole::J) | (UnaryOpKind::Neg, SelectSlotRole::Sdcols) => {
            operand == Mode::Character
        },
        (UnaryOpKind::Not, SelectSlotRole::I) | (UnaryOpKind::Not, SelectSlotRole::J) => {
            operand == Mode::Character || operand == Mode::List
        },
        (UnaryOpKind::Not, SelectSlotRole::Sdcols) => operand == Mode::Character,
        _ => false,
    }
}

/// A positive numeric literal, a `:` range of them, or a nonempty `c(...)`
/// of them: an index that selects existing positions one by one.
pub open spec fn positive_index_spec(e: Expr) -> bool
    decreases e,
{
    match e {
        Expr::Integer(n, _) => n > 0,
        Expr::Double(d, _) => d.whole is Some && d.positive,
        Expr::BinOp { op, lhs, rhs, .. } => op == BinOpKind::Colon && positive_index_spec(*lhs)
            && positive_index_spec(*rhs),
        Expr::Call { func, args, .. } => {
            &&& is_ident_named(*func, "c"@)
            &&& args@.len() > 0
            &&& forall|i: int| 0 <= i < args@.len() ==> positive_index_spec(#[trigger] args@[i].value)
        },
        _ => false,
    }
}

/// Whether every literal of an index expression is a positive whole number.
pub fn positive_numeric_index(expr: &Expr) -> (r: bool)
    ensures
        r == positive_index_spec(*expr),
    decreases expr,
{
    match expr {
        Expr::Integer(n, _) => *n > 0,
        Expr::Double(d, _) => d.whole.is_some() && d.positive,
        Expr::BinOp { op, lhs, rhs, .. } => {
            *op == BinOpKind::Colon && positive_numeric_index(lhs) && positive_numeric_index(rhs)
        },
        Expr::Call { func, args, .. } => {
            if !ident_is(func, "c") || args.len() == 0 {
                return false;
            }
            let mut i: usize = 0;
            while i < args.len()
                invariant
                    i <= args@.len(),
                    *expr matches Expr::Call { args: a, func: f, .. } && a == *args && f == *func,
                    is_ident_named(**func, "c"@),
                    args@.len() > 0,
                    forall|k: int| 0 <= k < i ==> positive_index_spec(#[trigger] args@[k].value),
                decreases args.len() - i,
            {
                proof {
                    lemma_call_arg_decreases(*expr, i as int);
                }
                if !positive_numeric_index(&args[i].value) {
                    return false;
                }
                i = i + 1;
            }
            true
        },
        _ => false,
    }
}

/// Whether an index expression is a scalar element selector: a positive
/// numeric literal or a string literal.
pub fn is_non_negative_scalar_index(expr: &Expr) -> (r: bool)
    ensures
        r == match *expr {
            Expr::Integer(n, _) => n > 0,
            Expr::Double(d, _) => d.positive,
            Expr::String(_, _) => true,
            _ => false,
        },
{
    match expr {
        Expr::Integer(n, _) => *n > 0,
        Expr::Double(d, _) => d.positive,
        Expr::String(_, _) => true,
        _ => false,
    }
}

/// The exact count a known length stands for, if any.
pub open spec fn exact_count(l: Length) -> Option<int> {
    match l {
        Length::Zero => Some(0),
        Length::One => Some(1),
        Length::Known(n) => Some(n as int),
        _ => None,
    }
}

/// The length form of an exact count.
pub open spec fn length_of_count(n: int) -> Length {
    if n == 0 {
        Length::Zero
    } else if n == 1 {
        Length::One
    } else {
        Length::Known(n as usize)
    }
}

/// The position a single negative literal excludes, if `e` is one.
pub open spec fn excluded_position(e: Expr) -> Option<int> {
    match e {
        Expr::UnaryOp { op: UnaryOpKind::Neg, expr, .. } => match *expr {
            Expr::Integer(n, _) => if n > 0 {
                Some(n as int)
            } else {
                None
            },
            Expr::Double(d, _) => match d.whole {
                Some(n) => if n > 0 {
                    Some(n as int)
                } else {
                    None
                },
                None => None,
            },
            _ => None,
        },
        _ => None,
    }
}

/// The length left after one literal negative exclusion: one element
/// fewer when the excluded position exists, the same length otherwise.
pub fn literal_negative_exclusion_length(base: Length, expr: &Expr) -> (r: Option<Length>)
    ensures
        r == match (excluded_position(*expr), exact_count(base)) {
            (Some(p), Some(n)) => Some(length_of_count(if p <= n { n - 1 } else { n })),
            _ => None,
        },
{
    let excluded: i64 = match expr {
        Expr::UnaryOp { op: UnaryOpKind::Neg, expr: inner, .. } => match &**inner {
            Expr::Integer(n, _) => {
                if *n > 0 {
                    *n
                } else {
                    return None;
                }
            },
            Expr::Double(d, _) => match d.whole {
                Some(n) => {
                    if n > 0 {
                        n
                    } else {
                        return None;
                    }
                },
                None => return None,
            },
            _ => return None,
        },
        _ => return None,
    };
    let base: usize = match base {
        Length::Zero => 0,
        Length::One => 1,
        Length::Known(n) => n,
        Length::Unknown | Length::Nonempty => return None,
    };
    let length: usize = if (excluded as i128) <= (base as i128) {
        base - 1
    } else {
        base
    };
    Some(
        if length == 0 {
            Length::Zero
        } else if length == 1 {
            Length::One
        } else {
            Length::Known(length)
        },
    )
}

/// The result of `base[index]` for a vector base, when the index's type
/// and syntax fix the length: `NULL` stays `NULL`; an atomic or list base
/// keeps its mode and class, loses its schema, and takes the index's
/// length for character or positive numeric indices, the remaining length
/// for one literal negative exclusion, and an unknown length otherwise.
/// Any other base gives no answer.
pub open spec fn subset_length(base: RType, index: RType, e: Expr) -> Length {
    if index.mode == Mode::Character {
        index.length
    } else if index.mode == Mode::Integer || index.mode == Mode::Double {
        if positive_index_spec(e) {
            index.length
        } else {
            match (excluded_position(e), exact_count(base.length)) {
                (Some(p), Some(n)) => length_of_count(if p <= n { n - 1 } else { n }),
                _ => Length::Unknown,
            }
        }
    } else {
        Length::Unknown
    }
}

/// Whether a mode is one `[` subsets element by element.
pub open spec fn vector_mode(m: Mode) -> bool {
    m == Mode::Integer || m == Mode::Double || m == Mode::Logical || m == Mode::Character || m
        == Mode::Complex || m == Mode::Raw || m == Mode::List
}

/// Infer `base[index]` for vector bases.
pub fn subset_vector(base: &RType, index: &RType, expression: &Expr) -> (r: Option<RType>)
    ensures
        base.mode == Mode::Null ==> r is Some && ty_eq(r->0, *base),
        base.mode != Mode::Null && !vector_mode(base.mode) ==> r is None,
        base.mode != Mode::Null && vector_mode(base.mode) ==> r is Some && ty_eq(
            r->0,
            RType { length: subset_length(*base, *index, *expression), columns: None, ..*base },
        ),
{
    if base.mode == Mode::Null {
        return Some(copy_type(base));
    }
    match base.mode {
        Mode::Integer | Mode::Double | Mode::Logical | Mode::Character | Mode::Complex | Mode::Raw
        | Mode::List => {},
        _ => return None,
    }
    let length = match index.mode {
        Mode::Character => index.length,
        Mode::Integer | Mode::Double => {
            if positive_numeric_index(expression) {
                index.length
            } else {
                match literal_negative_exclusion_length(base.length, expression) {
                    Some(l) => l,
                    None => Length::Unknown,
                }
            }
        },
        _ => Length::Unknown,
    };
    let copied = copy_type(base);
    let r = RType { length, columns: None, ..copied };
    proof {
        let want = RType { length: subset_length(*base, *index, *expression), columns: None, ..*base };
        assert(ty_eq(copied, *base));
        assert(ty_eq(r, want));
    }
    Some(r)
}

/// The type a literal parameter default gives its parameter: the
/// literal's scalar mode, zero-length `NULL`, an `NA`'s own type, and the
/// opaque type for anything that needs a scope.
pub open spec fn literal_default_spec(e: Expr, r: RType) -> bool {
    match e {
        Expr::Logical(_, _) => is_plain_type(r, Mode::Logical, Length::One),
        Expr::Integer(_, _) => is_plain_type(r, Mode::Integer, Length::One),
        Expr::Double(_, _) => is_plain_type(r, Mode::Double, Length::One),
        Expr::String(_, _) => is_plain_type(r, Mode::Character, Length::One),
        Expr::Null(_) => is_plain_type(r, Mode::Null, Length::Zero),
        Expr::Na(t, _) => ty_eq(r, t),
        _ => is_unknown_type(r),
    }
}

/// Literal-only inference for a parameter default.
pub fn infer_literal_default(e: &Expr) -> (r: RType)
    ensures
        literal_default_spec(*e, r),
{
    match e {
        Expr::Logical(_, _) => RType::scalar(Mode::Logical),
        Expr::Integer(_, _) => RType::scalar(Mode::Integer),
        Expr::Double(_, _) => RType::scalar(Mode::Double),
        Expr::String(_, _) => RType::scalar(Mode::Character),
        Expr::Null(_) => RType::new(Mode::Null, Length::Zero),
        Expr::Na(t, _) => copy_type(t),
        _ => RType::unknown(),
    }
}

/// Whether `e` is a call of `return` or `invisible`.
pub open spec fn return_call_spec(e: Expr) -> bool {
    e matches Expr::Call { func, .. } && (is_ident_named(*func, "return"@) || is_ident_named(
        *func,
        "invisible"@,
    ))
}

/// Whether `e` is syntactically `return(...)` or `invisible(...)`.
pub fn is_return_call(e: &Expr) -> (r: bool)
    ensures
        r == return_call_spec(*e),
{
    match e {
        Expr::Call { func, .. } => ident_is(func, "return") || ident_is(func, "invisible"),
        _ => false,
    }
}

/// The plain operator tokens that may be referenced as identifiers.
pub open spec fn operator_symbols() -> Seq<Seq<char>> {
    seq![
        "+"@, "-"@, "*"@, "/"@, "^"@, "<"@, ">"@, "<="@, ">="@, "=="@, "!="@, "&"@, "|"@,
        "&&"@, "||"@, "!"@, ":"@, "<-"@, "<<-"@, "="@, "~"@, "$"@, "@"@, "?"@
    ]
}

/// Whether `name` occurs in `list`.
pub open spec fn listed(list: Seq<Seq<char>>, name: Seq<char>) -> bool {
    exists|i: int| 0 <= i < list.len() && #[trigger] list[i] == name
}

/// Whether `name` is one of the `listed` strings, checked in order.
fn in_list(name: &str, list: &[&str]) -> (r: bool)
    ensures
        r == exists|i: int| 0 <= i < list@.len() && #[trigger] list@[i]@ == name@,
{
    let mut i: usize = 0;
    while i < list.len()
        invariant
            i <= list@.len(),
            forall|k: int| 0 <= k < i ==> (#[trigger] list@[k])@ != name@,
        decreases list.len() - i,
    {
        if str_eq(name, list[i]) {
            return true;
        }
        i = i + 1;
    }
    false
}

/// Whether `s` is an R operator symbol that may be used as an identifier.
pub fn is_operator_symbol(s: &str) -> (r: bool)
    ensures
        r == listed(operator_symbols(), s@),
{
    let list: [&str; 24] = [
        "+", "-", "*", "/", "^", "<", ">", "<=", ">=", "==", "!=", "&", "|", "&&", "||", "!", ":",
        "<-", "<<-", "=", "~", "$", "@", "?",
    ];
    let r = in_list(s, &list);
    proof {
        assert(list@.len() == 24);
        assert forall|i: int| 0 <= i < 24 implies #[trigger] list@[i]@ == operator_symbols()[i] by {}
        if r {
            let i = choose|i: int| 0 <= i < list@.len() && #[trigger] list@[i]@ == s@;
            assert(operator_symbols()[i] == s@);
        }
        if listed(operator_symbols(), s@) {
            let i = choose|i: int| 0 <= i < operator_symbols().len() && #[trigger] operator_symbols()[i] == s@;
            assert(list@[i]@ == s@);
        }
    }
    r
}

/// The span of an expression.
pub open spec fn span_spec(e: Expr) -> Span {
    match e {
        Expr::Logical(_, s) => s,
        Expr::Integer(_, s) => s,
        Expr::Double(_, s) => s,
        Expr::String(_, s) => s,
        Expr::Null(s) => s,
        Expr::Na(_, s) => s,
        Expr::Ident { span, .. } => span,
        Expr::Call { span, .. } => span,
        Expr::BinOp { span, .. } => span,
        Expr::UnaryOp { span, .. } => span,
        Expr::Index { span, .. } => span,
        Expr::Function { span, .. } => span,
        Expr::Block { span, .. } => span,
        Expr::If { span, .. } => span,
        Expr::Unknown(s) => s,
        Expr::Missing(s) => s,
    }
}

/// The source span of `e`.
pub fn span_of(e: &Expr) -> (r: Span)
    ensures
        r == span_spec(*e),
{
    match e {
        Expr::Logical(_, s) => *s,
        Expr::Integer(_, s) => *s,
        Expr::Double(_, s) => *s,
        Expr::String(_, s) => *s,
        Expr::Null(s) => *s,
        Expr::Na(_, s) => *s,
        Expr::Ident { span, .. } => *span,
        Expr::Call { span, .. } => *span,
        Expr::BinOp { span, .. } => *span,
        Expr::UnaryOp { span, .. } => *span,
        Expr::Index { span, .. } => *span,
        Expr::Function { span, .. } => *span,
        Expr::Block { span, .. } => *span,
        Expr::If { span, .. } => *span,
        Expr::Unknown(s) => *s,
        Expr::Missing(s) => *s,
    }
}

/// The field a `$` or `[[` access names: the name of `x$name`, or the
/// string literal of `x[["name"]]` when it is the only, unnamed argument.
pub open spec fn column_name_spec(kind: IndexKind, args: Seq<Arg>) -> Option<Seq<char>> {
    match kind {
        IndexKind::Dollar => if args.len() > 0 && args[0].name is Some {
            Some(args[0].name->0@)
        } else {
            None
        },
        IndexKind::Double => if args.len() == 1 && args[0].name is None {
            match args[0].value {
                Expr::String(s, _) => Some(s@),
                _ => None,
            }
        } else {
            None
        },
        IndexKind::Single => None,
        IndexKind::Slot => None,
    }
}

/// The field name a `$` or `[[` access reads or assigns.
pub fn assigned_column_name(kind: IndexKind, args: &Vec<Arg>) -> (r: Option<&str>)
    ensures
        match r {
            Some(s) => column_name_spec(kind, args@) == Some(s@),
            None => column_name_spec(kind, args@) is None,
        },
{
    match kind {
        IndexKind::Dollar => {
            if args.len() > 0 {
                match &args[0].name {
                    Some(n) => Some(n.as_str()),
                    None => None,
                }
            } else {
                None
            }
        },
        IndexKind::Double => {
            if args.len() == 1 && args[0].name.is_none() {
                match &args[0].value {
                    Expr::String(s, _) => Some(s.as_str()),
                    _ => None,
                }
            } else {
                None
            }
        },
        IndexKind::Single => None,
        IndexKind::Slot => None,
    }
}

/// `NULL`, or a field access on a binding whose schema comes from a local
/// `list(...)`, lists every field, and lacks the accessed field.
pub open spec fn known_null_spec(e: Expr, scope: Scope) -> bool {
    match e {
        Expr::Null(_) => true,
        Expr::Index { base, kind, args, .. } => match (column_name_spec(kind, args@), *base) {
            (Some(field), Expr::Ident { name, .. }) => match lookup(scope, name@) {
                Some(t) => match t.columns {
                    Some(schema) => schema.locally_constructed && schema.complete && forall|j: int|
                        0 <= j < schema.columns@.len() ==> (#[trigger] schema.columns@[j]).0@
                            != field,
                    None => false,
                },
                None => false,
            },
            _ => false,
        },
        _ => false,
    }
}

/// Whether an arithmetic operand is provably `NULL`.
pub fn known_null_arithmetic_operand(expr: &Expr, scope: &Scope) -> (r: bool)
    ensures
        r == known_null_spec(*expr, *scope),
{
    match expr {
        Expr::Null(_) => true,
        Expr::Index { base, kind, args, .. } => {
            let field = match assigned_column_name(*kind, args) {
                Some(f) => f,
                None => return false,
            };
            let name = match &**base {
                Expr::Ident { name, .. } => name,
                _ => return false,
            };
            match scope.get(name.as_str()) {
                Some(t) => match &t.columns {
                    Some(schema) => schema.locally_constructed && schema.complete && find_entry(
                        &schema.columns,
                        field,
                    ).is_none(),
                    None => false,
                },
                None => false,
            }
        },
        _ => false,
    }
}

/// The integer value of an integer literal, or of a double literal that is
/// a finite whole number.
pub fn extract_literal_int(e: &Expr) -> (r: Option<i64>)
    ensures
        r == match *e {
            Expr::Integer(n, _) => Some(n),
            Expr::Double(d, _) => d.whole,
            _ => None,
        },
{
    match e {
        Expr::Integer(n, _) => Some(*n),
        Expr::Double(d, _) => d.whole,
        _ => None,
    }
}

/// Whether `s` holds `::` at position `i`.
pub open spec fn qualifier_at(s: Seq<char>, i: int) -> bool {
    0 <= i && i + 1 < s.len() && s[i] == ':' && s[i + 1] == ':'
}

/// The position of the last `::` in `s`, if any.
pub open spec fn last_qualifier(s: Seq<char>) -> Option<int> {
    if exists|i: int| #[trigger] qualifier_at(s, i) {
        Some(
            choose|i: int|
                #[trigger] qualifier_at(s, i) && forall|j: int| i < j ==> !#[trigger] qualifier_at(s, j),
        )
    } else {
        None
    }
}

/// A name without its namespace qualifier: the text after the last `::`.
pub open spec fn bare_spec(s: Seq<char>) -> Seq<char> {
    match last_qualifier(s) {
        Some(i) => s.subrange(i + 2, s.len() as int),
        None => s,
    }
}

/// The name after the last `::` of a qualified name (`pkg::f`, `pkg:::f`).
pub fn bare_name(name: &str) -> (r: String)
    ensures
        r@ == bare_spec(name@),
{
    let n = name.unicode_len();
    let mut i: usize = n;
    while i >= 2
        invariant
            i <= n,
            n == name@.len(),
            forall|j: int| i - 1 <= j ==> !#[trigger] qualifier_at(name@, j),
        decreases i,
    {
        if name.get_char(i - 2) == ':' && name.get_char(i - 1) == ':' {
            let ghost k = (i - 2) as int;
            proof {
                assert(qualifier_at(name@, k));
                assert(forall|j: int| k < j ==> !#[trigger] qualifier_at(name@, j));
                let w = choose|w: int|
                    #[trigger] qualifier_at(name@, w) && forall|j: int| w < j ==> !#[trigger] qualifier_at(name@, j);
                if w < k {
                    assert(!qualifier_at(name@, k));
                }
                if w > k {
                    assert(!qualifier_at(name@, w));
                }
            }
            return name.substring_char(i, n).to_string();
        }
        proof {
            if i >= 2 {
                assert(!qualifier_at(name@, i - 2));
            }
        }
        i = i - 1;
    }
    proof {
        if exists|w: int| #[trigger] qualifier_at(name@, w) {
            let w = choose|w: int| #[trigger] qualifier_at(name@, w);
            assert(!qualifier_at(name@, w));
        }
    }
    name.to_string()
}

/// Functions whose arguments are bare symbols rather than expressions.
pub open spec fn nse_symbol_fns() -> Seq<Seq<char>> {
    seq![
        "defuse"@, "tidyeval_data"@, "peek_vars"@, "makeActiveBinding"@, "setkey"@, "setkeyv"@,
        "setindex"@, "setindexv"@
    ]
}

/// Whether `name`, qualified or not, is a function that takes bare symbols.
pub fn is_nse_symbol_fn(name: &str) -> (r: bool)
    ensures
        r == listed(nse_symbol_fns(), bare_spec(name@)),
{
    let bare = bare_name(name);
    let list: [&str; 8] = [
        "defuse", "tidyeval_data", "peek_vars", "makeActiveBinding", "setkey", "setkeyv",
        "setindex", "setindexv",
    ];
    let r = in_list(bare.as_str(), &list);
    proof {
        assert forall|i: int| 0 <= i < 8 implies #[trigger] list@[i]@ == nse_symbol_fns()[i] by {}
        if r {
            let i = choose|i: int| 0 <= i < list@.len() && #[trigger] list@[i]@ == bare@;
            assert(nse_symbol_fns()[i] == bare@);
        }
        if listed(nse_symbol_fns(), bare@) {
            let i = choose|i: int| 0 <= i < nse_symbol_fns().len() && #[trigger] nse_symbol_fns()[i] == bare@;
            assert(list@[i]@ == bare@);
        }
    }
    r
}

/// dplyr's control arguments.
pub open spec fn dplyr_controls() -> Seq<Seq<char>> {
    seq![".by"@, ".groups"@, ".keep"@, ".before"@, ".after"@, ".drop"@]
}

/// Whether `name` is one of dplyr's control arguments.
pub fn is_dplyr_control_arg(name: &str) -> (r: bool)
    ensures
        r == listed(dplyr_controls(), name@),
{
    let list: [&str; 6] = [".by", ".groups", ".keep", ".before", ".after", ".drop"];
    let r = in_list(name, &list);
    proof {
        assert forall|i: int| 0 <= i < 6 implies #[trigger] list@[i]@ == dplyr_controls()[i] by {}
        if r {
            let i = choose|i: int| 0 <= i < list@.len() && #[trigger] list@[i]@ == name@;
            assert(dplyr_controls()[i] == name@);
        }
        if listed(dplyr_controls(), name@) {
            let i = choose|i: int| 0 <= i < dplyr_controls().len() && #[trigger] dplyr_controls()[i] == name@;
            assert(list@[i]@ == name@);
        }
    }
    r
}

/// R's Arith and Compare group operators: the operators modelled as S3
/// generics.
pub open spec fn operator_generics() -> Seq<Seq<char>> {
    seq![
        "+"@, "-"@, "*"@, "/"@, "^"@, "%%"@, "%/%"@, "=="@, "!="@, "<"@, ">"@, "<="@, ">="@
    ]
}

/// Whether `name` is an operator modelled as an S3 generic.
pub fn is_operator_generic(name: &str) -> (r: bool)
    ensures
        r == listed(operator_generics(), name@),
{
    let list: [&str; 13] = [
        "+", "-", "*", "/", "^", "%%", "%/%", "==", "!=", "<", ">", "<=", ">=",
    ];
    let r = in_list(name, &list);
    proof {
        assert forall|i: int| 0 <= i < 13 implies #[trigger] list@[i]@ == operator_generics()[i] by {}
        if r {
            let i = choose|i: int| 0 <= i < list@.len() && #[trigger] list@[i]@ == name@;
            assert(operator_generics()[i] == name@);
        }
        if listed(operator_generics(), name@) {
            let i = choose|i: int| 0 <= i < operator_generics().len() && #[trigger] operator_generics()[i] == name@;
            assert(list@[i]@ == name@);
        }
    }
    r
}

} // verus!
