//! Group-generic dispatch of a binary operator between two classed
//! operands whose `Ops` methods are literal functions: R picks one method
//! when both classes name the same function object, and otherwise asks
//! `chooseOpsMethod()`.
use vstd::prelude::*;
use crate::ast::{Expr, Param, Stmt};
use crate::checker::Checker;
use crate::matching::{semantic_argument_name, semantic_name};
use crate::recall::ResolutionFacts;
use crate::scope::{Scope, has_name, lookup};
use crate::text::str_eq;
use crate::types::{Length, Mode, RType, is_plain_type, is_unknown_type};
use crate::typeshed::assoc;

verus! {

/// What the checker knows of a function value installed by assigning a
/// literal function with a constant body: the mode of that constant, the
/// logical value it returns if it is one, and whether its formals accept
/// the two operands of an `Ops` method or the six arguments of
/// `chooseOpsMethod`. `id` names the function object: aliases of one
/// object share it, and equal facts alone are not identity.
#[derive(Clone, Copy, PartialEq, Eq, Debug, Structural)]
pub struct LiteralFunction {
    pub id: usize,
    pub mode: Mode,
    pub choice: Option<bool>,
    pub accepts_two: bool,
    pub accepts_six: bool,
}

/// The mode and logical value of a constant function body.
pub open spec fn constant_body(e: Expr) -> Option<(Mode, Option<bool>)> {
    match e {
        Expr::Logical(v, _) => Some((Mode::Logical, Some(v))),
        Expr::Integer(..) => Some((Mode::Integer, None)),
        Expr::Double(..) => Some((Mode::Double, None)),
        Expr::String(..) => Some((Mode::Character, None)),
        _ => None,
    }
}

/// Whether formals accept exactly `names`: the same names in order, or a
/// prefix of them followed by `...`.
pub open spec fn formals_accept(params: Seq<Param>, names: Seq<Seq<char>>) -> bool {
    ||| (params.len() == names.len() && forall|i: int| 0 <= i < params.len() ==> #[trigger] params[i].name@ == names[i])
    ||| (params.len() > 0 && params[params.len() - 1].name@ == "..."@ && params.len() <= names.len() + 1
        && forall|i: int| 0 <= i < params.len() - 1 ==> #[trigger] params[i].name@ == names[i])
}

/// The formals of an `Ops` method.
pub open spec fn ops_formals() -> Seq<Seq<char>> {
    seq!["e1"@, "e2"@]
}

/// The formals of `chooseOpsMethod`.
pub open spec fn chooser_formals() -> Seq<Seq<char>> {
    seq!["x"@, "y"@, "mx"@, "my"@, "cl"@, "reverse"@]
}

/// What is known of the function value an assignment installs: an alias
/// shares the function it names; a literal `function(...) <constant>`
/// is a new function object `new_id`. Nothing is known when operators may
/// be replaced or packages were attached by bare name.
pub open spec fn literal_function_spec(
    value: Expr,
    scope: Scope,
    facts: ResolutionFacts,
    table: Seq<(String, LiteralFunction)>,
    new_id: usize,
) -> Option<LiteralFunction> {
    if scope.ops_environment_unknown || facts.bare_loaded {
        None
    } else {
        match value {
            Expr::Ident { name, .. } => match assoc(table, semantic_name(name@), 0) {
                Some(f) => if facts.syntax_rebound {
                    None
                } else {
                    Some(f)
                },
                None => None,
            },
            Expr::Function { params, body, .. } => if body@.len() == 1 && body@[0] is Expr {
                match constant_body(body@[0]->Expr_0) {
                    Some((mode, choice)) => if facts.syntax_rebound {
                        None
                    } else {
                        Some(
                            LiteralFunction {
                                id: new_id,
                                mode,
                                choice,
                                accepts_two: formals_accept(params@, ops_formals()),
                                accepts_six: formals_accept(params@, chooser_formals()),
                            },
                        )
                    },
                    None => None,
                }
            } else {
                None
            },
            _ => None,
        }
    }
}

/// The first class of an operand that can select a method: none for an
/// unknown or empty class vector or for the `default` class.
pub open spec fn dispatch_class(t: RType) -> Option<Seq<char>> {
    if !t.class.known || t.class.names@.len() == 0 || t.class.names@[0]@ == "default"@ {
        None
    } else {
        Some(t.class.names@[0]@)
    }
}

/// The name of the method of `symbol` for `class`.
pub open spec fn method_name(symbol: Seq<char>, class: Seq<char>) -> Seq<char> {
    symbol + "."@ + class
}

/// Whether a binding of `name` (or its backquoted spelling) may hold a
/// method: a function or an opaque value.
pub open spec fn lexical_method(scope: Scope, name: Seq<char>) -> bool {
    let found = match lookup(scope, name) {
        Some(t) => Some(t),
        None => lookup(scope, "`"@ + name + "`"@),
    };
    match found {
        Some(t) => t.mode == Mode::Function || t.mode == Mode::Opaque,
        None => false,
    }
}

/// The choice `chooseOpsMethod.<class>` makes, when it is a literal
/// function that accepts the chooser's arguments and returns a logical.
pub open spec fn chooser_choice(table: Seq<(String, LiteralFunction)>, class: Seq<char>) -> Option<bool> {
    match assoc(table, "chooseOpsMethod."@ + class, 0) {
        Some(f) => if f.accepts_six {
            f.choice
        } else {
            None
        },
        None => None,
    }
}

/// The result of dispatching `symbol` on two classed operands, as
/// `None` (no claim), `Some(None)` (the opaque type) or `Some(Some(m))` (a
/// scalar of mode `m`): with both methods literal functions, one object
/// for both classes gives its constant mode; otherwise `chooseOpsMethod`
/// picks the left method on TRUE and the right one when the left says
/// FALSE and the right TRUE. Uncertain lookups give the opaque type.
pub open spec fn dispatch_spec(
    symbol: Seq<char>,
    lhs: RType,
    rhs: RType,
    scope: Scope,
    facts: ResolutionFacts,
    table: Seq<(String, LiteralFunction)>,
) -> Option<Option<Mode>> {
    if scope.data_mask_unknown || scope.search_path_unknown {
        None
    } else {
        match (dispatch_class(lhs), dispatch_class(rhs)) {
            (Some(lc), Some(rc)) => {
                let left_name = method_name(symbol, lc);
                let right_name = method_name(symbol, rc);
                match (assoc(table, left_name, 0), assoc(table, right_name, 0)) {
                    (Some(left), Some(right)) => if scope.ops_environment_unknown || facts.syntax_rebound || has_name(
                        facts.rebound_operators@,
                        symbol,
                    ) {
                        Some(None)
                    } else if !left.accepts_two || !right.accepts_two {
                        Some(None)
                    } else if left.id == right.id {
                        Some(Some(left.mode))
                    } else if chooser_choice(table, lc) == Some(true) {
                        Some(Some(left.mode))
                    } else if chooser_choice(table, lc) == Some(false) && chooser_choice(table, rc) == Some(true) {
                        Some(Some(right.mode))
                    } else {
                        Some(None)
                    },
                    _ => if lc != rc && lexical_method(scope, left_name) && lexical_method(scope, right_name) {
                        Some(None)
                    } else {
                        None
                    },
                }
            },
            _ => None,
        }
    }
}

fn lookup_literal(table: &Vec<(String, LiteralFunction)>, key: &str) -> (r: Option<LiteralFunction>)
    ensures
        r == assoc(table@, key@, 0),
{
    let mut i: usize = 0;
    while i < table.len()
        invariant
            i <= table@.len(),
            assoc(table@, key@, 0) == assoc(table@, key@, i as int),
        decreases table.len() - i,
    {
        if str_eq(table[i].0.as_str(), key) {
            return Some(table[i].1);
        }
        i = i + 1;
    }
    None
}

fn prefix_matches(params: &Vec<Param>, names: &Vec<&str>, k: usize) -> (r: bool)
    requires
        k <= params@.len(),
        k <= names@.len(),
    ensures
        r == forall|i: int| 0 <= i < k ==> #[trigger] params@[i].name@ == crate::matching::name_views(names@)[i],
{
    let ghost nv = crate::matching::name_views(names@);
    let mut i: usize = 0;
    while i < k
        invariant
            k <= params@.len(),
            k <= names@.len(),
            nv == crate::matching::name_views(names@),
            i <= k,
            forall|j: int| 0 <= j < i ==> #[trigger] params@[j].name@ == nv[j],
        decreases k - i,
    {
        if !str_eq(params[i].name.as_str(), names[i]) {
            assert(params@[i as int].name@ != nv[i as int]);
            return false;
        }
        i = i + 1;
    }
    true
}

fn accepts(params: &Vec<Param>, names: &Vec<&str>) -> (r: bool)
    ensures
        r == formals_accept(params@, crate::matching::name_views(names@)),
{
    if params.len() == names.len() && prefix_matches(params, names, params.len()) {
        return true;
    }
    let n = params.len();
    if n == 0 || !str_eq(params[n - 1].name.as_str(), "...") || n - 1 > names.len() {
        return false;
    }
    prefix_matches(params, names, n - 1)
}

/// What is known of the function value an assignment installs (see
/// `literal_function_spec`).
pub fn literal_function(
    value: &Expr,
    scope: &Scope,
    facts: &ResolutionFacts,
    table: &Vec<(String, LiteralFunction)>,
    new_id: usize,
) -> (r: Option<LiteralFunction>)
    ensures
        r == literal_function_spec(*value, *scope, *facts, table@, new_id),
{
    if scope.ops_environment_unknown || facts.bare_loaded {
        return None;
    }
    match value {
        Expr::Ident { name, .. } => {
            let key = semantic_argument_name(name.as_str());
            match lookup_literal(table, key.as_str()) {
                Some(f) => if facts.syntax_rebound {
                    None
                } else {
                    Some(f)
                },
                None => None,
            }
        },
        Expr::Function { params, body, .. } => {
            if body.len() != 1 {
                return None;
            }
            let constant = match &body[0] {
                Stmt::Expr(e) => e,
                _ => return None,
            };
            let (mode, choice) = match constant {
                Expr::Logical(v, _) => (Mode::Logical, Some(*v)),
                Expr::Integer(..) => (Mode::Integer, None),
                Expr::Double(..) => (Mode::Double, None),
                Expr::String(..) => (Mode::Character, None),
                _ => return None,
            };
            if facts.syntax_rebound {
                return None;
            }
            let mut two: Vec<&str> = Vec::new();
            two.push("e1");
            two.push("e2");
            assert(crate::matching::name_views(two@) =~= ops_formals());
            let mut six: Vec<&str> = Vec::new();
            six.push("x");
            six.push("y");
            six.push("mx");
            six.push("my");
            six.push("cl");
            six.push("reverse");
            assert(crate::matching::name_views(six@) =~= chooser_formals());
            Some(
                LiteralFunction {
                    id: new_id,
                    mode,
                    choice,
                    accepts_two: accepts(params, &two),
                    accepts_six: accepts(params, &six),
                },
            )
        },
        _ => None,
    }
}

/// `symbol.class` as text.
fn method_text(symbol: &str, class: &str) -> (r: String)
    ensures
        r@ == method_name(symbol@, class@),
{
    let mut s = String::from_str(symbol);
    s.append(".");
    s.append(class);
    proof {
        reveal_strlit(".");
    }
    s
}

fn lexical_method_binding(scope: &Scope, name: &str) -> (r: bool)
    ensures
        r == lexical_method(*scope, name@),
{
    let found = match scope.get(name) {
        Some(t) => Some(t),
        None => {
            let mut quoted = String::from_str("`");
            quoted.append(name);
            quoted.append("`");
            proof {
                reveal_strlit("`");
            }
            assert(quoted@ == "`"@ + name@ + "`"@);
            scope.get(quoted.as_str())
        },
    };
    match found {
        Some(t) => t.mode == Mode::Function || t.mode == Mode::Opaque,
        None => false,
    }
}

fn first_dispatch_class(t: &RType) -> (r: Option<&str>)
    ensures
        match r {
            Some(c) => dispatch_class(*t) == Some(c@),
            None => dispatch_class(*t) is None,
        },
{
    if t.class.is_unknown() || t.class.names.len() == 0 || str_eq(t.class.names[0].as_str(), "default") {
        None
    } else {
        Some(t.class.names[0].as_str())
    }
}

fn chooser(table: &Vec<(String, LiteralFunction)>, class: &str) -> (r: Option<bool>)
    ensures
        r == chooser_choice(table@, class@),
{
    let mut name = String::from_str("chooseOpsMethod.");
    name.append(class);
    match lookup_literal(table, name.as_str()) {
        Some(f) => if f.accepts_six {
            f.choice
        } else {
            None
        },
        None => None,
    }
}

impl Checker {
    /// Dispatch `symbol` on two classed operands whose methods are
    /// literal functions (see `dispatch_spec`).
    pub fn dispatch(
        &self,
        symbol: &str,
        lhs: &RType,
        rhs: &RType,
        scope: &Scope,
        facts: &ResolutionFacts,
        table: &Vec<(String, LiteralFunction)>,
    ) -> (r: Option<RType>)
        ensures
            match dispatch_spec(symbol@, *lhs, *rhs, *scope, *facts, table@) {
                None => r is None,
                Some(None) => r matches Some(t) && is_unknown_type(t),
                Some(Some(m)) => r matches Some(t) && is_plain_type(t, m, Length::One),
            },
    {
        if scope.data_mask_unknown || scope.search_path_unknown {
            return None;
        }
        let left_class = match first_dispatch_class(lhs) {
            Some(c) => c,
            None => return None,
        };
        let right_class = match first_dispatch_class(rhs) {
            Some(c) => c,
            None => return None,
        };
        let left_name = method_text(symbol, left_class);
        let right_name = method_text(symbol, right_class);
        let (left, right) = match (lookup_literal(table, left_name.as_str()), lookup_literal(table, right_name.as_str())) {
            (Some(l), Some(r)) => (l, r),
            _ => {
                if !str_eq(left_class, right_class) && lexical_method_binding(scope, left_name.as_str())
                    && lexical_method_binding(scope, right_name.as_str()) {
                    return Some(RType::unknown());
                }
                return None;
            },
        };
        if scope.ops_environment_unknown || facts.syntax_rebound || crate::scope::names_contain(
            &facts.rebound_operators,
            symbol,
        ) {
            return Some(RType::unknown());
        }
        if !left.accepts_two || !right.accepts_two {
            return Some(RType::unknown());
        }
        if left.id == right.id {
            return Some(RType::scalar(left.mode));
        }
        let left_choice = chooser(table, left_class);
        match left_choice {
            Some(true) => Some(RType::scalar(left.mode)),
            Some(false) => if chooser(table, right_class) == Some(true) {
                Some(RType::scalar(right.mode))
            } else {
                Some(RType::unknown())
            },
            None => Some(RType::unknown()),
        }
    }
}

} // verus!
