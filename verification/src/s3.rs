//! S3 dispatch of the arithmetic and comparison operators: a classed
//! operand's method for the operator (`+.foo`), then its `Ops` group
//! method, looked up in the method table in order.
use vstd::prelude::*;
use crate::ast::{BinOpKind, UnaryOpKind};
use crate::checker::Checker;
use crate::condition::{op_symbol, op_text};
use crate::signatures::sig_result;
use crate::stubs::{S3Method, S3Source};
use crate::text::str_eq;
use crate::types::{Mode, RType, copy_type, is_unknown_type, ty_eq};

verus! {

/// The position of the first method of `table`, from `from` on, for
/// `generic` and `class`.
pub open spec fn s3_method_from(table: Seq<S3Method>, generic: Seq<char>, class: Seq<char>, from: int) -> Option<int>
    decreases table.len() - from,
{
    if from < 0 || from >= table.len() {
        None
    } else if table[from].generic@ == generic && table[from].class@ == class {
        Some(from)
    } else {
        s3_method_from(table, generic, class, from + 1)
    }
}

/// What looking up `generic` for `class` gives an operator whose operand
/// types are `ops`: `Some` decides the result, `None` falls through. A
/// registered method's result is opaque; a project method's is its
/// inferred return when it is the operator's own method, opaque for a
/// group method; a stub method's is its declared return, except that an
/// opaque return of a group stub falls through.
pub open spec fn s3_try(table: Seq<S3Method>, generic: Seq<char>, specific: bool, class: Seq<char>, ops: Seq<RType>, out: Option<RType>) -> bool {
    match s3_method_from(table, generic, class, 0) {
        None => out is None,
        Some(k) => match table[k].source {
            S3Source::Registered => out is Some && is_unknown_type(out->0),
            S3Source::Project(slot) => out is Some && if specific && slot is Some {
                ty_eq(out->0, slot->0)
            } else {
                is_unknown_type(out->0)
            },
            S3Source::Stub(sig) => if out is Some {
                sig_result(sig, seq![], ops, out->0) && (specific || out->0.mode != Mode::Opaque)
            } else {
                !specific && exists|t: RType| sig_result(sig, seq![], ops, t) && t.mode == Mode::Opaque
            },
        },
    }
}

/// Dispatch over the classes `names[i..]` of an operand: for each class
/// but `default`, the operator's own method, then the `Ops` method.
/// `outs[k]` records what the two lookups for class `k` gave.
pub open spec fn classes_dispatch(
    table: Seq<S3Method>,
    symbol: Seq<char>,
    ops: Seq<RType>,
    names: Seq<String>,
    i: int,
    outs: Seq<(Option<RType>, Option<RType>)>,
    r: Option<RType>,
) -> bool
    decreases names.len() - i,
{
    if i < 0 || i >= names.len() {
        r is None
    } else if names[i]@ == "default"@ {
        classes_dispatch(table, symbol, ops, names, i + 1, outs, r)
    } else {
        let (own, group) = outs[i];
        s3_try(table, symbol, true, names[i]@, ops, own) && if own is Some {
            r == own
        } else {
            s3_try(table, "Ops"@, false, names[i]@, ops, group) && if group is Some {
                r == group
            } else {
                classes_dispatch(table, symbol, ops, names, i + 1, outs, r)
            }
        }
    }
}

/// Dispatch on operand `t`: an unknown class on a concrete mode may be any
/// class, so the result is opaque; otherwise its classes are tried in
/// order.
pub open spec fn operand_dispatch(
    table: Seq<S3Method>,
    symbol: Seq<char>,
    ops: Seq<RType>,
    t: RType,
    outs: Seq<(Option<RType>, Option<RType>)>,
    r: Option<RType>,
) -> bool {
    if !t.class.known && t.mode != Mode::Opaque && t.mode != Mode::Union {
        r is Some && is_unknown_type(r->0)
    } else {
        classes_dispatch(table, symbol, ops, t.class.names@, 0, outs, r)
    }
}

/// The intermediate results of a binary dispatch.
pub ghost struct S3Witness {
    pub ops: Seq<RType>,
    pub left: Seq<(Option<RType>, Option<RType>)>,
    pub right: Seq<(Option<RType>, Option<RType>)>,
    pub first: Option<RType>,
}

/// Whether `op` never dispatches: `%in%`, `:`, the pipes, `&&` and `||`.
pub open spec fn never_dispatches(op: BinOpKind) -> bool {
    op == BinOpKind::In || op == BinOpKind::Colon || op == BinOpKind::PipeForward || op == BinOpKind::PipeNative || op
        == BinOpKind::AndAnd || op == BinOpKind::OrOr
}

/// The S3 result of `lt op rt`: the left operand's dispatch, else the
/// right one's; none for an operator that never dispatches.
pub open spec fn s3_binop(table: Seq<S3Method>, op: BinOpKind, lt: RType, rt: RType, w: S3Witness, r: Option<RType>) -> bool {
    if never_dispatches(op) {
        r is None
    } else {
        &&& w.ops.len() == 2
        &&& ty_eq(w.ops[0], lt)
        &&& ty_eq(w.ops[1], rt)
        &&& operand_dispatch(table, op_text(op), w.ops, lt, w.left, w.first)
        &&& if w.first is Some {
            r == w.first
        } else {
            operand_dispatch(table, op_text(op), w.ops, rt, w.right, r)
        }
    }
}

/// The symbol of a unary operator.
pub open spec fn unary_text(op: UnaryOpKind) -> Seq<char> {
    match op {
        UnaryOpKind::Neg => "-"@,
        UnaryOpKind::Not => "!"@,
    }
}

/// The S3 result of a unary operator on an operand of type `t`.
pub open spec fn s3_unary(table: Seq<S3Method>, op: UnaryOpKind, t: RType, w: S3Witness, r: Option<RType>) -> bool {
    &&& w.ops.len() == 1
    &&& ty_eq(w.ops[0], t)
    &&& operand_dispatch(table, unary_text(op), w.ops, t, w.left, r)
}

impl Checker {
    /// The first method of the table for `generic` and `class`.
    fn s3_lookup_method(&self, generic: &str, class: &str) -> (r: Option<usize>)
        ensures
            match r {
                Some(k) => k < self.stubs.s3_methods@.len() && s3_method_from(self.stubs.s3_methods@, generic@, class@, 0)
                    == Some(k as int),
                None => s3_method_from(self.stubs.s3_methods@, generic@, class@, 0) is None,
            },
    {
        let table = &self.stubs.s3_methods;
        let mut i: usize = table.len();
        let mut found: Option<usize> = None;
        while i > 0
            invariant
                i <= table@.len(),
                match found {
                    Some(k) => i <= k < table@.len() && s3_method_from(table@, generic@, class@, i as int) == Some(k as int),
                    None => s3_method_from(table@, generic@, class@, i as int) is None,
                },
            decreases i,
        {
            i = i - 1;
            if str_eq(table[i].generic.as_str(), generic) && str_eq(table[i].class.as_str(), class) {
                found = Some(i);
            }
        }
        found
    }

    /// What looking up `generic` for `class` gives (see `s3_try`).
    fn s3_try_method(&self, generic: &str, specific: bool, class: &str, ops: &Vec<RType>) -> (r: Option<RType>)
        ensures
            s3_try(self.stubs.s3_methods@, generic@, specific, class@, ops@, r),
    {
        match self.s3_lookup_method(generic, class) {
            None => None,
            Some(k) => match &self.stubs.s3_methods[k].source {
                S3Source::Registered => Some(RType::unknown()),
                S3Source::Project(slot) => {
                    if specific {
                        match slot {
                            Some(t) => Some(copy_type(t)),
                            None => Some(RType::unknown()),
                        }
                    } else {
                        Some(RType::unknown())
                    }
                },
                S3Source::Stub(sig) => {
                    let none: Vec<crate::ast::Arg> = Vec::new();
                    let result = self.apply_sig(sig, ops, &none);
                    assert(none@ =~= Seq::<crate::ast::Arg>::empty());
                    if specific || result.mode != Mode::Opaque {
                        Some(result)
                    } else {
                        None
                    }
                },
            },
        }
    }

    /// S3 dispatch of an operator on one operand (see `operand_dispatch`).
    fn s3_dispatch_on_operand(&self, symbol: &str, ops: &Vec<RType>, t: &RType) -> (r: Option<RType>)
        ensures
            exists|outs: Seq<(Option<RType>, Option<RType>)>| operand_dispatch(self.stubs.s3_methods@, symbol@, ops@, *t, outs, r),
    {
        let ghost table = self.stubs.s3_methods@;
        if !t.class.known && t.mode != Mode::Opaque && t.mode != Mode::Union {
            let r = Some(RType::unknown());
            assert(operand_dispatch(table, symbol@, ops@, *t, Seq::empty(), r));
            return r;
        }
        let names = &t.class.names;
        let n = names.len();
        let ghost mut outs: Seq<(Option<RType>, Option<RType>)> = Seq::new(n as nat, |k: int| (None, None));
        // Walk the classes from the last, so that each position's outcome
        // is known once the ones after it are.
        let mut result: Option<RType> = None;
        let mut i: usize = n;
        proof {
            assert(classes_dispatch(table, symbol@, ops@, names@, n as int, outs, result));
        }
        while i > 0
            invariant
                i <= n,
                n == names@.len(),
                outs.len() == n,
                table == self.stubs.s3_methods@,
                classes_dispatch(table, symbol@, ops@, names@, i as int, outs, result),
            decreases i,
        {
            i = i - 1;
            proof {
                reveal_strlit("default");
            }
            if str_eq(names[i].as_str(), "default") {
                proof {
                    assert(classes_dispatch(table, symbol@, ops@, names@, i as int, outs, result));
                }
            } else {
                let own = self.s3_try_method(symbol, true, names[i].as_str(), ops);
                proof {
                    reveal_strlit("Ops");
                }
                let group = self.s3_try_method("Ops", false, names[i].as_str(), ops);
                let ghost rest = result;
                let ghost old_outs = outs;
                proof {
                    outs = outs.update(i as int, (own, group));
                    assert forall|k: int| #![auto] i < k < n implies outs[k] == old_outs[k] by {}
                    lemma_classes_frame(table, symbol@, ops@, names@, i + 1, old_outs, outs, rest);
                }
                match own {
                    Some(x) => {
                        result = Some(x);
                    },
                    None => match group {
                        Some(x) => {
                            result = Some(x);
                        },
                        None => {},
                    },
                }
                proof {
                    assert(outs[i as int] == (own, group));
                    assert(s3_try(table, symbol@, true, names@[i as int]@, ops@, own));
                    assert(s3_try(table, "Ops"@, false, names@[i as int]@, ops@, group));
                    assert(names@[i as int]@ != "default"@);
                    assert(classes_dispatch(table, symbol@, ops@, names@, i as int, outs, result));
                }
            }
        }
        assert(operand_dispatch(table, symbol@, ops@, *t, outs, result));
        result
    }

    /// S3 dispatch of a binary operator (see `s3_binop`).
    pub fn try_s3_binop_dispatch(&self, op: BinOpKind, lt: &RType, rt: &RType) -> (r: Option<RType>)
        ensures
            exists|w: S3Witness| s3_binop(self.stubs.s3_methods@, op, *lt, *rt, w, r),
    {
        if op == BinOpKind::In || op == BinOpKind::Colon || op == BinOpKind::PipeForward || op == BinOpKind::PipeNative || op
            == BinOpKind::AndAnd || op == BinOpKind::OrOr {
            let ghost w = S3Witness { ops: Seq::empty(), left: Seq::empty(), right: Seq::empty(), first: None };
            assert(s3_binop(self.stubs.s3_methods@, op, *lt, *rt, w, None));
            return None;
        }
        let symbol = op_symbol(op);
        let mut ops: Vec<RType> = Vec::new();
        ops.push(copy_type(lt));
        ops.push(copy_type(rt));
        let first = self.s3_dispatch_on_operand(symbol, &ops, lt);
        let ghost left = choose|outs: Seq<(Option<RType>, Option<RType>)>|
            operand_dispatch(self.stubs.s3_methods@, symbol@, ops@, *lt, outs, first);
        match first {
            Some(t) => {
                let ghost w = S3Witness { ops: ops@, left, right: Seq::empty(), first };
                assert(s3_binop(self.stubs.s3_methods@, op, *lt, *rt, w, Some(t)));
                Some(t)
            },
            None => {
                let r = self.s3_dispatch_on_operand(symbol, &ops, rt);
                let ghost right = choose|outs: Seq<(Option<RType>, Option<RType>)>|
                    operand_dispatch(self.stubs.s3_methods@, symbol@, ops@, *rt, outs, r);
                let ghost w = S3Witness { ops: ops@, left, right, first };
                assert(s3_binop(self.stubs.s3_methods@, op, *lt, *rt, w, r));
                r
            },
        }
    }

    /// S3 dispatch of a unary operator (see `s3_unary`).
    pub fn try_s3_unary_dispatch(&self, op: UnaryOpKind, t: &RType) -> (r: Option<RType>)
        ensures
            exists|w: S3Witness| s3_unary(self.stubs.s3_methods@, op, *t, w, r),
    {
        let symbol = match op {
            UnaryOpKind::Neg => "-",
            UnaryOpKind::Not => "!",
        };
        proof {
            reveal_strlit("-");
            reveal_strlit("!");
        }
        let mut ops: Vec<RType> = Vec::new();
        ops.push(copy_type(t));
        let r = self.s3_dispatch_on_operand(symbol, &ops, t);
        let ghost outs = choose|outs: Seq<(Option<RType>, Option<RType>)>|
            operand_dispatch(self.stubs.s3_methods@, symbol@, ops@, *t, outs, r);
        let ghost w = S3Witness { ops: ops@, left: outs, right: Seq::empty(), first: None };
        assert(s3_unary(self.stubs.s3_methods@, op, *t, w, r));
        r
    }
}

/// Class dispatch from `i` on reads only the outcomes from `i` on.
proof fn lemma_classes_frame(
    table: Seq<S3Method>,
    symbol: Seq<char>,
    ops: Seq<RType>,
    names: Seq<String>,
    i: int,
    outs: Seq<(Option<RType>, Option<RType>)>,
    outs2: Seq<(Option<RType>, Option<RType>)>,
    r: Option<RType>,
)
    requires
        0 <= i,
        outs.len() == names.len(),
        outs2.len() == names.len(),
        forall|k: int| #![auto] i <= k < names.len() ==> outs2[k] == outs[k],
        classes_dispatch(table, symbol, ops, names, i, outs, r),
    ensures
        classes_dispatch(table, symbol, ops, names, i, outs2, r),
    decreases names.len() - i,
{
    if i < names.len() {
        if names[i]@ == "default"@ {
            lemma_classes_frame(table, symbol, ops, names, i + 1, outs, outs2, r);
        } else if outs[i].0 is None && outs[i].1 is None {
            lemma_classes_frame(table, symbol, ops, names, i + 1, outs, outs2, r);
        }
    }
}

} // verus!
