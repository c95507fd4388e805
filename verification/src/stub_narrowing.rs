//! Narrowing by a predicate a stub declares: `is_string(x)` narrows `x` to
//! the type the stub says the predicate tests for, and `!is_string(x)`
//! narrows the else branch.
use vstd::prelude::*;
use crate::ast::{Expr, UnaryOpKind};
use crate::checker::Checker;
use crate::infer_leaf::{is_qualified, qualified_name};
use crate::matching::{arg_tags, match_spec, opt_int};
use crate::narrow::{Narrowing, Shape, extract_builtin_type_narrowing, narrowing_matches, shape_of};
use crate::scope::{Scope, lookup};
use crate::text::str_eq;
use crate::types::{RType, copy_type, ty_eq};
use crate::typeshed::{ParamSpec, bound_actual, bound_argument_index, bound_index_spec, formal_index, lemma_first_binding_matches, spec_names, assoc};

verus! {

/// A predicate a stub declares: a call of `name` tests whether the
/// actual bound to `subject_param` has type `target`.
#[derive(Debug)]
pub struct PredicateStub {
    pub name: String,
    pub params: Vec<ParamSpec>,
    pub subject_param: String,
    pub target: RType,
}

/// The first stub from `from` on whose name is `name`.
pub open spec fn stub_for(table: Seq<PredicateStub>, name: Seq<char>, from: int) -> Option<PredicateStub>
    decreases table.len() - from,
{
    if from < 0 || from >= table.len() {
        None
    } else if table[from].name@ == name {
        Some(table[from])
    } else {
        stub_for(table, name, from + 1)
    }
}

/// What a condition refines: a built-in refinement (see `shape_of`), a
/// stub predicate's (positive or negated, the variable, the target), or
/// nothing.
pub enum Refinement {
    Unrefined,
    Builtin(Shape),
    Stub(bool, Seq<char>, RType),
}

/// The refinement a stub predicate call `name(args)` gives, unless a local
/// binding that is not a function alias shadows an unqualified `name`.
pub open spec fn stub_call_refinement(name: Seq<char>, args: Seq<crate::ast::Arg>, scope: Scope, table: Seq<PredicateStub>) -> Refinement {
    if !qualified_name(name) && lookup(scope, name) is Some && assoc(scope.function_aliases@, name, 0) is None {
        Refinement::Unrefined
    } else {
        match stub_for(table, name, 0) {
            Some(st) => match formal_index(st.params@, st.subject_param@, 0) {
                Some(f) => match bound_actual(st.params@, args, f) {
                    Some(i) => if i < args.len() {
                        match args[i].value {
                            Expr::Ident { name: var, .. } => Refinement::Stub(true, var@, st.target),
                            _ => Refinement::Unrefined,
                        }
                    } else {
                        Refinement::Unrefined
                    },
                    None => Refinement::Unrefined,
                },
                None => Refinement::Unrefined,
            },
            None => Refinement::Unrefined,
        }
    }
}

/// The refinement of a condition: the built-in one when there is one;
/// else, under `!`, the negation of the operand's positive or negative
/// refinement; else a stub predicate call's.
pub open spec fn refinement(cond: Expr, scope: Scope, table: Seq<PredicateStub>) -> Refinement
    decreases cond,
{
    if !(shape_of(cond) is Unrefined) {
        Refinement::Builtin(shape_of(cond))
    } else {
        match cond {
            Expr::UnaryOp { op: UnaryOpKind::Not, expr, .. } => match refinement(*expr, scope, table) {
                Refinement::Builtin(Shape::Positive(v, n, a)) => Refinement::Builtin(Shape::Negative(v, n, a)),
                Refinement::Builtin(Shape::Negative(v, n, a)) => Refinement::Builtin(Shape::Positive(v, n, a)),
                Refinement::Stub(p, v, t) => Refinement::Stub(!p, v, t),
                _ => Refinement::Unrefined,
            },
            Expr::Call { func, args, .. } => match *func {
                Expr::Ident { name, .. } => stub_call_refinement(name@, args@, scope, table),
                _ => Refinement::Unrefined,
            },
            _ => Refinement::Unrefined,
        }
    }
}

/// Whether a narrowing is the one a refinement describes.
pub open spec fn refinement_matches(r: Narrowing, f: Refinement) -> bool {
    match f {
        Refinement::Unrefined => r is Unrefined,
        Refinement::Builtin(s) => narrowing_matches(r, s),
        Refinement::Stub(positive, v, t) => if positive {
            r matches Narrowing::Positive { var, target } && var@ == v && ty_eq(target, t)
        } else {
            r matches Narrowing::Negative { var, target } && var@ == v && ty_eq(target, t)
        },
    }
}

fn find_stub(table: &Vec<PredicateStub>, name: &str) -> (r: Option<usize>)
    ensures
        match r {
            Some(i) => i < table@.len() && stub_for(table@, name@, 0) == Some(table@[i as int]),
            None => stub_for(table@, name@, 0) is None,
        },
{
    let mut i: usize = 0;
    while i < table.len()
        invariant
            i <= table@.len(),
            stub_for(table@, name@, 0) == stub_for(table@, name@, i as int),
        decreases table.len() - i,
    {
        if str_eq(table[i].name.as_str(), name) {
            return Some(i);
        }
        i = i + 1;
    }
    None
}

impl Checker {
    /// The narrowing an `if` condition establishes (see `refinement`);
    /// `table` holds the predicates the stubs declare, by the name a call
    /// spells.
    pub fn extract_type_narrowing(&self, cond: &Expr, scope: &Scope, table: &Vec<PredicateStub>) -> (r: Narrowing)
        ensures
            refinement_matches(r, refinement(*cond, *scope, table@)),
        decreases cond,
    {
        let built_in = extract_builtin_type_narrowing(cond);
        match built_in {
            Narrowing::Unrefined => {},
            _ => {
                return built_in;
            },
        }
        match cond {
            Expr::UnaryOp { op: UnaryOpKind::Not, expr, .. } => {
                return match self.extract_type_narrowing(expr, scope, table) {
                    Narrowing::Positive { var, target } => Narrowing::Negative { var, target },
                    Narrowing::Negative { var, target } => Narrowing::Positive { var, target },
                    _ => Narrowing::Unrefined,
                };
            },
            _ => {},
        }
        let (func, args) = match cond {
            Expr::Call { func, args, .. } => (func, args),
            _ => return Narrowing::Unrefined,
        };
        let name = match &**func {
            Expr::Ident { name, .. } => name,
            _ => return Narrowing::Unrefined,
        };
        if !is_qualified(name.as_str()) && scope.get(name.as_str()).is_some() && scope.function_alias(name.as_str()).is_none() {
            return Narrowing::Unrefined;
        }
        let k = match find_stub(table, name.as_str()) {
            Some(k) => k,
            None => return Narrowing::Unrefined,
        };
        let stub = &table[k];
        let subject = match bound_argument_index(stub.params.as_slice(), args.as_slice(), stub.subject_param.as_str()) {
            Some(i) => i,
            None => {
                proof {
                    let m = choose|m: crate::matching::ArgumentMatch|
                        match_spec(spec_names(stub.params@), arg_tags(args@), m) && opt_int(None::<usize>) == bound_index_spec(
                            stub.params@,
                            m,
                            stub.subject_param@,
                        );
                    if let Some(f) = formal_index(stub.params@, stub.subject_param@, 0) {
                        lemma_first_binding_matches(m, stub.params@, args@, f, 0);
                    }
                }
                return Narrowing::Unrefined;
            },
        };
        proof {
            let m = choose|m: crate::matching::ArgumentMatch|
                match_spec(spec_names(stub.params@), arg_tags(args@), m) && opt_int(Some(subject)) == bound_index_spec(
                    stub.params@,
                    m,
                    stub.subject_param@,
                );
            if let Some(f) = formal_index(stub.params@, stub.subject_param@, 0) {
                lemma_first_binding_matches(m, stub.params@, args@, f, 0);
            }
        }
        if subject >= args.len() {
            return Narrowing::Unrefined;
        }
        match &args[subject].value {
            Expr::Ident { name: var, .. } => Narrowing::Positive { var: var.clone(), target: copy_type(&stub.target) },
            _ => Narrowing::Unrefined,
        }
    }
}

} // verus!
