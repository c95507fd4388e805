//! Replacement-function assignments to attributes: `class(x) <- "cls"`.
use vstd::prelude::*;
use crate::ast::{Expr, is_ident_named};
use crate::checker::Checker;
use crate::literals::{ClassLiteral, all_strings, parse_class_literal, string_values};
use crate::scope::{Scope, lookup, same_flags};
use crate::types::{ClassVector, RType, copy_type, ty_eq};

verus! {

/// The class vector a class literal gives: a string is one known class, a
/// nonempty `c(...)` of strings its classes in order, anything else an
/// unknown class.
pub open spec fn class_vector_of(e: Expr, c: ClassVector) -> bool {
    match e {
        Expr::String(s, _) => c.known && c.names@.len() == 1 && c.names@[0]@ == s@,
        Expr::Call { func, args, .. } => if is_ident_named(*func, "c"@) && args@.len() > 0 && all_strings(args@) {
            &&& c.known
            &&& c.names@.len() == args@.len()
            &&& forall|i: int| 0 <= i < c.names@.len() ==> (#[trigger] c.names@[i])@ == string_values(args@)[i]
        } else {
            !c.known && c.names@.len() == 0
        },
        _ => !c.known && c.names@.len() == 0,
    }
}

/// The variable a `class(x) <- value` target assigns: `x`, when the target
/// is a call of `class` whose first argument is an identifier.
pub open spec fn class_target(target: Expr) -> Option<Seq<char>> {
    match target {
        Expr::Call { func, args, .. } => if is_ident_named(*func, "class"@) && args@.len() > 0 {
            match args@[0].value {
                Expr::Ident { name, .. } => Some(name@),
                _ => None,
            }
        } else {
            None
        },
        _ => None,
    }
}

impl Checker {
    /// `class(x) <- value`: a bound `x` keeps its type with the class the
    /// literal value names (unknown for a value that is not a class
    /// literal). Returns whether the target was such an assignment.
    pub fn assign_class_attribute(&mut self, target: &Expr, value: &Expr, scope: &mut Scope) -> (r: bool)
        ensures
            *final(self) == *old(self),
            r == (class_target(*target) matches Some(x) && lookup(*old(scope), x) is Some),
            !r ==> *final(scope) == *old(scope),
            r ==> {
                let x = class_target(*target)->0;
                &&& lookup(*final(scope), x) matches Some(t) && class_vector_of(*value, t.class) && ty_eq(
                    t,
                    RType { class: t.class, ..lookup(*old(scope), x)->0 },
                )
                &&& forall|n: Seq<char>| n != x ==> #[trigger] lookup(*final(scope), n) == lookup(*old(scope), n)
                &&& same_flags(*old(scope), *final(scope))
            },
    {
        let (func, args) = match target {
            Expr::Call { func, args, .. } => (func, args),
            _ => return false,
        };
        if !crate::ast::ident_is(func, "class") || args.len() == 0 {
            return false;
        }
        let name = match &args[0].value {
            Expr::Ident { name, .. } => name,
            _ => return false,
        };
        let base = match scope.get(name.as_str()) {
            Some(t) => copy_type(t),
            None => return false,
        };
        let class = match parse_class_literal(value) {
            ClassLiteral::Single(c) => ClassVector::single(c.as_str()),
            ClassLiteral::Multi(classes) => ClassVector::from_names(classes),
            ClassLiteral::Unknown => ClassVector::unknown(),
        };
        let updated = base.with_class(class);
        proof {
            let c = updated.class;
            assert(ty_eq(updated, RType { class: c, ..lookup(*old(scope), name@)->0 }));
        }
        scope.insert(name.as_str(), updated);
        true
    }
}

} // verus!
