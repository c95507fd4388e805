//! The checker's state and the diagnostics it reports about call sites:
//! unknown and missing arguments, constants shadowing an enclosing formal,
//! and the defusing helpers its promise analysis trusts.
use vstd::prelude::*;
use crate::ast::{Arg, Expr, Param, Span, Stmt};
use crate::force::{collect_executed_identifiers, definite_stmt, definitely_forced_identifier_in_stmt, executed_expr, first_exec, first_executed_identifier, forces_before_replacement, guaranteed_force_before_replacement};
use crate::scope::{Scope, has_name, lookup, names_contain};
use crate::typeshed::{FunctionSig, ParamSpec};
use vstd::utf8::encode_utf8;
use crate::matching::{ArgumentMatch, arg_tags, match_spec, dots_text, first_binding, is_prefix, name_views, near, semantic_name, unique_closest};

verus! {

/// How serious a diagnostic is.
#[derive(Clone, Copy, PartialEq, Eq, Debug, Structural)]
pub enum Severity {
    Error,
    Warning,
}

/// One reported finding.
#[derive(Debug)]
pub struct Diagnostic {
    pub severity: Severity,
    pub span: Span,
    pub code: String,
    pub message: String,
}

/// A finding as plain values: severity, span, code and message text.
pub open spec fn diag_view(d: Diagnostic) -> (Severity, Span, Seq<char>, Seq<char>) {
    (d.severity, d.span, d.code@, d.message@)
}

/// The findings of a list, as plain values.
pub open spec fn diag_views(ds: Seq<Diagnostic>) -> Seq<(Severity, Span, Seq<char>, Seq<char>)> {
    ds.map_values(|d: Diagnostic| diag_view(d))
}

/// A formal parameter of a function the file defines.
#[derive(Debug)]
pub struct UserParam {
    pub name: String,
    /// The formal has no default, so a call must supply it.
    pub required: bool,
    /// The formal captures its argument as an expression.
    pub quoting: bool,
    /// The formal's value is only ever defused, never evaluated.
    pub defused: bool,
}

/// A function the file defines.
#[derive(Debug)]
pub struct UserFn {
    pub params: Vec<UserParam>,
}

/// The formals of one enclosing function definition.
#[derive(Debug)]
pub struct EnclosingFrame {
    pub function_span: Span,
    pub names: Vec<String>,
}

/// The exits a loop has recorded so far: the scopes at its `break`s and at
/// its `next`s, joined.
#[derive(Debug)]
pub struct LoopExitFrame {
    pub breaks: Option<Box<Scope>>,
    pub nexts: Option<Box<Scope>>,
}

/// The checker's state.
#[derive(Debug)]
pub struct Checker {
    /// Findings reported so far, in order.
    pub diagnostics: Vec<Diagnostic>,
    /// Inference runs without reporting.
    pub discarding: bool,
    /// The source text of the file.
    pub source: String,
    /// A stub's formals are checked even when the file defines a function
    /// of the same name.
    pub validate_user_call_arguments: bool,
    /// The functions the file defines, by name.
    pub fn_table: Vec<(String, UserFn)>,
    /// The formals of the function definitions around the current point,
    /// outermost first.
    pub enclosing_formals: Vec<EnclosingFrame>,
    /// For every function of the file, the formals its body reads.
    pub formal_reads: Vec<(Span, Vec<String>)>,
    /// The loops around the current point, outermost first.
    pub loop_frames: Vec<LoopExitFrame>,
    /// The cached set of trusted defusing helpers.
    pub trusted_defusers: Option<Vec<String>>,
    /// The stub database and project facts.
    pub stubs: crate::stubs::Stubs,
}

/// Whether the file defines a function named `name`.
pub open spec fn defines(table: Seq<(String, UserFn)>, name: Seq<char>) -> bool {
    exists|i: int| 0 <= i < table.len() && #[trigger] table[i].0@ == name
}

/// The reports of `b` are those of `a` followed by `added`.
pub open spec fn reported(a: Checker, b: Checker, added: Seq<(Severity, Span, Seq<char>, Seq<char>)>) -> bool {
    diag_views(b.diagnostics@) == diag_views(a.diagnostics@) + added
}

/// `b` is `a` with possibly more findings and nothing else changed.
pub open spec fn same_state(a: Checker, b: Checker) -> bool {
    &&& b.discarding == a.discarding
    &&& b.source == a.source
    &&& b.validate_user_call_arguments == a.validate_user_call_arguments
    &&& b.fn_table == a.fn_table
    &&& b.enclosing_formals == a.enclosing_formals
    &&& b.formal_reads == a.formal_reads
    &&& b.loop_frames == a.loop_frames
    &&& b.trusted_defusers == a.trusted_defusers
    &&& b.stubs == a.stubs
}

/// What reporting one finding adds: nothing while discarding.
pub open spec fn emitted(c: Checker, d: (Severity, Span, Seq<char>, Seq<char>)) -> Seq<(Severity, Span, Seq<char>, Seq<char>)> {
    if c.discarding {
        seq![]
    } else {
        seq![d]
    }
}

/// Whether a function is named `name` in the table.
pub(crate) fn table_defines(table: &Vec<(String, UserFn)>, name: &str) -> (r: bool)
    ensures
        r == defines(table@, name@),
{
    let mut i: usize = 0;
    while i < table.len()
        invariant
            i <= table@.len(),
            forall|k: int| 0 <= k < i ==> (#[trigger] table@[k]).0@ != name@,
        decreases table.len() - i,
    {
        if crate::text::str_eq(table[i].0.as_str(), name) {
            return true;
        }
        i = i + 1;
    }
    false
}

/// The callee a call's argument rules use.
pub enum ResolvedCallee<'a> {
    User(&'a UserFn),
    Stub(&'a FunctionSig),
    Unknown,
}

impl Checker {
    /// Report a finding, unless inference is discarding its reports.
    pub fn emit(&mut self, severity: Severity, span: Span, code: &str, message: String)
        ensures
            same_state(*old(self), *final(self)),
            reported(*old(self), *final(self), emitted(*old(self), (severity, span, code@, message@))),
    {
        let ghost before = self.diagnostics@;
        if !self.discarding {
            let d = Diagnostic { severity, span, code: code.to_string(), message };
            self.diagnostics.push(d);
            assert(diag_views(self.diagnostics@) =~= diag_views(before) + seq![(severity, span, code@, message@)]);
        } else {
            assert(diag_views(self.diagnostics@) =~= diag_views(before) + seq![]);
        }
    }

    /// The callee whose formals the argument rules check: a function the
    /// file defines shadows the stub; a lexical callable resolves to
    /// neither; a stub is used unless a same-named definition exists and
    /// stubs are not validated against definitions.
    pub fn resolve_callee<'a>(
        &self,
        function_name: &str,
        user_function: Option<&'a UserFn>,
        resolved_sig: Option<&'a FunctionSig>,
        lexical_callable: bool,
    ) -> (r: ResolvedCallee<'a>)
        ensures
            match user_function {
                Some(u) => r == ResolvedCallee::User(u),
                None => match resolved_sig {
                    Some(s) => if !lexical_callable && (self.validate_user_call_arguments || !defines(
                        self.fn_table@,
                        function_name@,
                    )) {
                        r == ResolvedCallee::Stub(s)
                    } else {
                        r is Unknown
                    },
                    None => r is Unknown,
                },
            },
    {
        match user_function {
            Some(u) => ResolvedCallee::User(u),
            None => match resolved_sig {
                Some(s) => {
                    if !lexical_callable && (self.validate_user_call_arguments || !table_defines(
                        &self.fn_table,
                        function_name,
                    )) {
                        ResolvedCallee::Stub(s)
                    } else {
                        ResolvedCallee::Unknown
                    }
                },
                None => ResolvedCallee::Unknown,
            },
        }
    }

    /// Whether an argument is the dots symbol `...` itself, written directly
    /// in the source (not wrapped in parentheses), which R expands.
    pub fn is_forwarded_dots(&self, argument: &Arg) -> (r: bool)
        ensures
            r == match argument.value {
                Expr::Ident { name, span } => {
                    &&& crate::matching::semantic_name(name@) == crate::matching::dots_text()
                    &&& argument.span.end == span.end
                    &&& forwarded_source(encode_utf8(self.source@), span, encode_utf8(name@))
                },
                _ => false,
            },
    {
        match &argument.value {
            Expr::Ident { name, span } => {
                let tag = crate::matching::semantic_argument_name(name.as_str());
                if !crate::matching::is_dots(tag.as_str()) || argument.span.end != span.end {
                    return false;
                }
                let src = self.source.as_str().as_bytes();
                let written = name.as_str().as_bytes();
                if !(span.start <= span.end && span.end <= src.len()) {
                    return false;
                }
                if span.end - span.start != written.len() {
                    return false;
                }
                let mut k: usize = 0;
                while k < written.len()
                    invariant
                        k <= written@.len(),
                        src@ == encode_utf8(self.source@),
                        written@ == encode_utf8(name@),
                        argument.value == (Expr::Ident { name: *name, span: *span }),
                        span.start <= span.end <= src@.len(),
                        span.end - span.start == written@.len(),
                        forall|j: int| 0 <= j < k ==> src@[span.start + j] == #[trigger] written@[j],
                    decreases written.len() - k,
                {
                    if src[span.start + k] != written[k] {
                        assert(src@.subrange(span.start as int, span.end as int)[k as int] != written@[k as int]);
                        return false;
                    }
                    k = k + 1;
                }
                assert(src@.subrange(span.start as int, span.end as int) =~= written@);
                true
            },
            _ => false,
        }
    }
}

/// The source bytes at `span` are those of `name`.
pub open spec fn forwarded_source(source: Seq<u8>, span: Span, name: Seq<u8>) -> bool {
    span.start <= span.end <= source.len() && source.subrange(span.start as int, span.end as int) == name
}

/// The defusing helpers the promise analysis trusts: the built-in
/// defusing calls, plus every defined function all of whose formals quote
/// or are defused; a defined function that does not qualify removes its
/// name.
pub open spec fn trusted_spec(table: Seq<(String, UserFn)>, n: Seq<char>) -> bool
    decreases table.len(),
{
    if table.len() == 0 {
        crate::subscript::listed(crate::force::defusing_calls(), n)
    } else {
        let last = table.last();
        if last.0@ == n {
            all_defusing(last.1.params@)
        } else {
            trusted_spec(table.drop_last(), n)
        }
    }
}

/// Every formal quotes or is defused.
pub open spec fn all_defusing(ps: Seq<UserParam>) -> bool {
    forall|i: int| 0 <= i < ps.len() ==> (#[trigger] ps[i]).quoting || ps[i].defused
}

/// The list of built-in defusing call names.
fn defusing_call_names() -> (r: Vec<String>)
    ensures
        forall|n: Seq<char>| has_name(r@, n) == crate::subscript::listed(crate::force::defusing_calls(), n),
{
    let list: [&str; 15] = [
        "quote", "bquote", "substitute", "expression", "alist", "enquo", "enquos", "enexpr",
        "enexprs", "ensym", "ensyms", "quo", "quos", "expr", "exprs",
    ];
    let mut out: Vec<String> = Vec::new();
    let mut i: usize = 0;
    while i < 15
        invariant
            i <= 15,
            out@.len() == i,
            forall|k: int| 0 <= k < 15 ==> (#[trigger] list@[k])@ == crate::force::defusing_calls()[k],
            forall|k: int| 0 <= k < i ==> (#[trigger] out@[k])@ == crate::force::defusing_calls()[k],
        decreases 15 - i,
    {
        out.push(String::from_str(list[i]));
        i = i + 1;
    }
    proof {
        assert forall|n: Seq<char>| has_name(out@, n) == crate::subscript::listed(crate::force::defusing_calls(), n) by {
            if has_name(out@, n) {
                let k = choose|k: int| 0 <= k < out@.len() && #[trigger] out@[k]@ == n;
                assert(crate::force::defusing_calls()[k] == n);
            }
            if crate::subscript::listed(crate::force::defusing_calls(), n) {
                let k = choose|k: int| 0 <= k < crate::force::defusing_calls().len() && #[trigger] crate::force::defusing_calls()[k] == n;
                assert(out@[k]@ == n);
            }
        }
    }
    out
}

/// The set of defusing helpers the promise analysis trusts.
pub fn build_trusted_defusers(fn_table: &Vec<(String, UserFn)>) -> (r: Vec<String>)
    ensures
        forall|n: Seq<char>| has_name(r@, n) == trusted_spec(fn_table@, n),
{
    let mut trusted = defusing_call_names();
    let mut i: usize = 0;
    assert(fn_table@.take(0) =~= Seq::<(String, UserFn)>::empty());
    while i < fn_table.len()
        invariant
            i <= fn_table@.len(),
            forall|n: Seq<char>| has_name(trusted@, n) == trusted_spec(fn_table@.take(i as int), n),
        decreases fn_table.len() - i,
    {
        let params = &fn_table[i].1.params;
        let mut all = true;
        let mut j: usize = 0;
        while j < params.len()
            invariant
                j <= params@.len(),
                all == forall|k: int| 0 <= k < j ==> (#[trigger] params@[k]).quoting || params@[k].defused,
            decreases params.len() - j,
        {
            if !(params[j].quoting || params[j].defused) {
                all = false;
            }
            j = j + 1;
        }
        let ghost before = trusted@;
        if all {
            crate::scope::add_name(&mut trusted, fn_table[i].0.as_str());
        } else {
            crate::scope::remove_name(&mut trusted, fn_table[i].0.as_str());
        }
        proof {
            let t = fn_table@.take(i + 1);
            assert(t.drop_last() =~= fn_table@.take(i as int));
            assert(t.last() == fn_table@[i as int]);
        }
        i = i + 1;
    }
    assert(fn_table@.take(fn_table@.len() as int) =~= fn_table@);
    trusted
}

impl Checker {
    /// The trusted defusing helpers, built once from the function table and
    /// cached.
    pub fn trusted_defusers(&mut self) -> (r: Vec<String>)
        requires
            old(self).trusted_defusers matches Some(c) ==> forall|n: Seq<char>|
                has_name(c@, n) == trusted_spec(old(self).fn_table@, n),
        ensures
            forall|n: Seq<char>| has_name(r@, n) == trusted_spec(old(self).fn_table@, n),
            final(self).trusted_defusers matches Some(c) && c@ == r@,
            final(self).diagnostics == old(self).diagnostics,
            final(self).fn_table == old(self).fn_table,
            final(self).discarding == old(self).discarding,
            final(self).source == old(self).source,
            final(self).enclosing_formals == old(self).enclosing_formals,
            final(self).formal_reads == old(self).formal_reads,
            final(self).loop_frames == old(self).loop_frames,
            final(self).validate_user_call_arguments == old(self).validate_user_call_arguments,
    {
        match &self.trusted_defusers {
            Some(cached) => {
                return crate::scope::copy_names(cached);
            },
            None => {},
        }
        let built = build_trusted_defusers(&self.fn_table);
        self.trusted_defusers = Some(crate::scope::copy_names(&built));
        built
    }

    /// Start a loop: the loop body's scope records its frame.
    pub fn begin_loop(&mut self, inner: &mut Scope)
        ensures
            final(inner).loop_frame == Some(old(self).loop_frames.len()),
            *final(inner) == (Scope { loop_frame: Some(old(self).loop_frames.len()), ..*old(inner) }),
            final(self).loop_frames@.len() == old(self).loop_frames@.len() + 1,
            final(self).loop_frames@.drop_last() == old(self).loop_frames@,
            final(self).loop_frames@.last().breaks is None,
            final(self).loop_frames@.last().nexts is None,
            final(self).diagnostics == old(self).diagnostics,
    {
        inner.loop_frame = Some(self.loop_frames.len());
        self.loop_frames.push(LoopExitFrame { breaks: None, nexts: None });
        assert(self.loop_frames@.drop_last() =~= old(self).loop_frames@);
    }

    /// Carry into `scope` the refinements a branch made, when that branch is
    /// the only route to the continuation: each narrowed name the branch
    /// binds is rebound to the branch's type, as a defaulted parameter when
    /// the branch records it as one.
    pub fn copy_continuation_narrowing(&self, scope: &mut Scope, continuation: &Scope, narrowed: &Vec<String>)
        ensures
            forall|n: Seq<char>|
                #![trigger lookup(*final(scope), n)]
                has_name(narrowed@, n) && lookup(*continuation, n) is Some ==> lookup(*final(scope), n) is Some
                    && crate::types::ty_eq(lookup(*final(scope), n)->0, lookup(*continuation, n)->0),
            forall|n: Seq<char>|
                #![trigger lookup(*final(scope), n)]
                !(has_name(narrowed@, n) && lookup(*continuation, n) is Some) ==> lookup(*final(scope), n)
                    == lookup(*old(scope), n),
    {
        let ghost s0 = *scope;
        let mut i: usize = 0;
        while i < narrowed.len()
            invariant
                i <= narrowed@.len(),
                forall|n: Seq<char>|
                    #![trigger lookup(*scope, n)]
                    has_name(narrowed@.take(i as int), n) && lookup(*continuation, n) is Some ==> lookup(*scope, n) is Some
                        && crate::types::ty_eq(lookup(*scope, n)->0, lookup(*continuation, n)->0),
                forall|n: Seq<char>|
                    #![trigger lookup(*scope, n)]
                    !(has_name(narrowed@.take(i as int), n) && lookup(*continuation, n) is Some) ==> lookup(*scope, n)
                        == lookup(s0, n),
            decreases narrowed.len() - i,
        {
            let ghost before = *scope;
            let ghost ni = narrowed@[i as int]@;
            proof {
                let t = narrowed@.take(i + 1);
                assert forall|n: Seq<char>| has_name(t, n) == (has_name(narrowed@.take(i as int), n) || n == ni) by {
                    if has_name(t, n) {
                        let k = choose|k: int| 0 <= k < t.len() && #[trigger] t[k]@ == n;
                        if k < i {
                            assert(narrowed@.take(i as int)[k] == t[k]);
                        }
                    }
                    if has_name(narrowed@.take(i as int), n) {
                        let k = choose|k: int| 0 <= k < i && #[trigger] narrowed@.take(i as int)[k]@ == n;
                        assert(t[k] == narrowed@.take(i as int)[k]);
                    }
                    if n == ni {
                        assert(t[i as int]@ == n);
                    }
                }
            }
            let name = narrowed[i].as_str();
            match continuation.get(name) {
                Some(ty) => {
                    let copied = crate::types::copy_type(ty);
                    let ghost cg = copied;
                    if continuation.is_default_parameter(name) {
                        scope.insert_parameter_default(name, copied);
                    } else {
                        scope.insert(name, copied);
                    }
                    proof {
                        assert forall|n: Seq<char>| #![trigger lookup(*scope, n)]
                            lookup(*scope, n) == if n == ni { Some(cg) } else { lookup(before, n) } by {}
                    }
                },
                None => {},
            }
            i = i + 1;
        }
        assert(narrowed@.take(narrowed@.len() as int) =~= narrowed@);
    }
}


/// A formal parameter as the arity rules see it.
pub trait CallFormal {
    /// The formal's name.
    spec fn formal_name(&self) -> Seq<char>;

    /// Whether a call must supply the formal.
    spec fn is_required(&self) -> bool;

    fn name(&self) -> (r: &str)
        ensures
            r@ == self.formal_name(),
    ;

    fn required(&self) -> (r: bool)
        ensures
            r == self.is_required(),
    ;
}

impl CallFormal for ParamSpec {
    open spec fn formal_name(&self) -> Seq<char> {
        self.name@
    }

    open spec fn is_required(&self) -> bool {
        self.required
    }

    fn name(&self) -> (r: &str) {
        self.name.as_str()
    }

    fn required(&self) -> (r: bool) {
        self.required
    }
}

impl CallFormal for UserParam {
    open spec fn formal_name(&self) -> Seq<char> {
        self.name@
    }

    open spec fn is_required(&self) -> bool {
        self.required
    }

    fn name(&self) -> (r: &str) {
        self.name.as_str()
    }

    fn required(&self) -> (r: bool) {
        self.required
    }
}

/// Whether `arg` is the dots symbol written directly in `source`.
pub open spec fn forwarded_dots_spec(source: Seq<char>, arg: Arg) -> bool {
    match arg.value {
        Expr::Ident { name, span } => {
            &&& semantic_name(name@) == dots_text()
            &&& arg.span.end == span.end
            &&& forwarded_source(encode_utf8(source), span, encode_utf8(name@))
        },
        _ => false,
    }
}

/// Some argument forwards the caller's dots.
pub open spec fn forwards_dots_spec(source: Seq<char>, args: Seq<Arg>) -> bool {
    exists|i: int| 0 <= i < args.len() && #[trigger] forwarded_dots_spec(source, args[i])
}

/// An argument's tag, or the empty text.
pub open spec fn tag_text(a: Arg) -> Seq<char> {
    match a.name {
        Some(n) => n@,
        None => seq![],
    }
}

/// The unique formal to suggest for a misspelled tag, if any.
pub open spec fn suggestion(arg: Seq<char>, ps: Seq<Seq<char>>) -> Option<Seq<char>> {
    if exists|j: int| unique_closest(arg, ps, j) {
        Some(ps[choose|j: int| unique_closest(arg, ps, j)])
    } else {
        None
    }
}

/// The RY090 message.
pub open spec fn unknown_message(arg: Seq<char>, function: Seq<char>, hint: Option<Seq<char>>) -> Seq<char> {
    "unknown argument `"@ + arg + "` to `"@ + function + "`"@ + match hint {
        Some(name) => "; did you mean `"@ + name + "`?"@,
        None => seq![],
    }
}

/// Whether some formal's unquoted name starts with the unquoted tag.
pub open spec fn prefix_of_some_formal(names: Seq<Seq<char>>, arg: Seq<char>) -> bool {
    exists|j: int|
        0 <= j < names.len() && #[trigger] is_prefix(semantic_name(arg), semantic_name(names[j]))
}

/// The RY090 report for unmatched named actual `ai`, if any.
pub open spec fn unknown_report(
    source: Seq<char>,
    function: Seq<char>,
    names: Seq<Seq<char>>,
    args: Seq<Arg>,
    ai: int,
) -> Seq<(Severity, Span, Seq<char>, Seq<char>)> {
    let a = args[ai];
    if forwarded_dots_spec(source, a) {
        seq![]
    } else if forwards_dots_spec(source, args) && prefix_of_some_formal(names, tag_text(a)) {
        seq![]
    } else {
        seq![
            (
                Severity::Warning,
                a.span,
                "RY090"@,
                unknown_message(tag_text(a), function, suggestion(tag_text(a), names)),
            )
        ]
    }
}

/// The RY090 reports for the first `k` unmatched named actuals.
pub open spec fn unknown_reports(
    source: Seq<char>,
    function: Seq<char>,
    names: Seq<Seq<char>>,
    args: Seq<Arg>,
    unmatched: Seq<usize>,
    k: int,
) -> Seq<(Severity, Span, Seq<char>, Seq<char>)>
    decreases k,
{
    if k <= 0 || k > unmatched.len() {
        seq![]
    } else {
        unknown_reports(source, function, names, args, unmatched, k - 1) + unknown_report(
            source,
            function,
            names,
            args,
            unmatched[k - 1] as int,
        )
    }
}

/// The RY091 message.
pub open spec fn missing_message(name: Seq<char>, function: Seq<char>) -> Seq<char> {
    "missing required argument `"@ + name + "` in call to `"@ + function + "`"@
}

/// Whether formal `p` has no usable actual: with forwarded dots, only an
/// exact named empty actual pins it; otherwise it is unbound or bound to
/// an empty actual.
pub open spec fn formal_missing(
    source: Seq<char>,
    names: Seq<Seq<char>>,
    args: Seq<Arg>,
    m: ArgumentMatch,
    p: int,
) -> bool {
    if forwards_dots_spec(source, args) {
        exists|i: int|
            0 <= i < args.len() && #[trigger] named_hole(args[i], names[p])
    } else {
        !m.bound_params@[p] || match first_binding(m.param_for_arg@, p, 0) {
            Some(i) => args[i].value is Missing,
            None => false,
        }
    }
}

/// An actual tagged (after unquoting) with formal name `name` whose value
/// is empty.
pub open spec fn named_hole(a: Arg, name: Seq<char>) -> bool {
    match a.name {
        Some(n) => semantic_name(n@) == semantic_name(name) && a.value is Missing,
        None => false,
    }
}

/// The RY091 reports for the first `k` formals.
pub open spec fn missing_reports(
    source: Seq<char>,
    function: Seq<char>,
    names: Seq<Seq<char>>,
    required: Seq<bool>,
    args: Seq<Arg>,
    m: ArgumentMatch,
    call_span: Span,
    k: int,
) -> Seq<(Severity, Span, Seq<char>, Seq<char>)>
    decreases k,
{
    if k <= 0 || k > required.len() {
        seq![]
    } else {
        missing_reports(source, function, names, required, args, m, call_span, k - 1) + if required[k
            - 1] && formal_missing(source, names, args, m, k - 1) {
            seq![(Severity::Warning, call_span, "RY091"@, missing_message(names[k - 1], function))]
        } else {
            seq![]
        }
    }
}

/// Only reports are added, and only when not discarding.
pub open spec fn reports_added(a: Checker, b: Checker, added: Seq<(Severity, Span, Seq<char>, Seq<char>)>) -> bool {
    &&& same_state(a, b)
    &&& reported(a, b, if a.discarding { seq![] } else { added })
}

/// Every tag and formal name pair fits the edit-distance table.
pub open spec fn lengths_fit(names: Seq<&str>, args: Seq<Arg>) -> bool {
    forall|i: int, j: int|
        0 <= i < args.len() && 0 <= j < names.len() ==> tag_text(#[trigger] args[i]).len() + (
        #[trigger] names[j])@.len() <= usize::MAX
}

proof fn lemma_unique_closest_unique(arg: Seq<char>, ps: Seq<Seq<char>>, a: int, b: int)
    requires
        unique_closest(arg, ps, a),
        unique_closest(arg, ps, b),
    ensures
        a == b,
{
    if a != b {
        assert(near(arg, ps, b));
        assert(near(arg, ps, a));
    }
}

/// Build the RY090 message text.
fn unknown_message_text(arg: &str, function_name: &str, hint: Option<&str>) -> (r: String)
    ensures
        r@ == unknown_message(
            arg@,
            function_name@,
            match hint {
                Some(h) => Some(h@),
                None => None,
            },
        ),
{
    let mut m = String::from_str("unknown argument `");
    m.append(arg);
    m.append("` to `");
    m.append(function_name);
    m.append("`");
    match hint {
        Some(h) => {
            m.append("; did you mean `");
            m.append(h);
            m.append("`?");
        },
        None => {},
    }
    m
}

/// Build the RY091 message text.
fn missing_message_text(name: &str, function_name: &str) -> (r: String)
    ensures
        r@ == missing_message(name@, function_name@),
{
    let mut m = String::from_str("missing required argument `");
    m.append(name);
    m.append("` in call to `");
    m.append(function_name);
    m.append("`");
    m
}

impl Checker {
    /// Whether some argument forwards the caller's dots.
    fn any_forwarded_dots(&self, args: &[Arg]) -> (r: bool)
        ensures
            r == forwards_dots_spec(self.source@, args@),
    {
        let mut i: usize = 0;
        while i < args.len()
            invariant
                i <= args@.len(),
                forall|k: int| 0 <= k < i ==> !#[trigger] forwarded_dots_spec(self.source@, args@[k]),
            decreases args.len() - i,
        {
            if self.is_forwarded_dots(&args[i]) {
                assert(forwarded_dots_spec(self.source@, args@[i as int]));
                return true;
            }
            i = i + 1;
        }
        false
    }

    /// RY090: report each named actual no formal matched, with a
    /// suggestion when one formal is uniquely close. Silent when disabled,
    /// when the callee takes `...`, for a forwarded `...` actual, and, when
    /// dots are forwarded, for a tag some formal starts with.
    pub fn emit_unknown_arguments(
        &mut self,
        function_name: &str,
        names: &[&str],
        args: &[Arg],
        bindings: &ArgumentMatch,
        enabled: bool,
    )
        requires
            forall|k: int|
                0 <= k < bindings.unmatched_named@.len() ==> #[trigger] bindings.unmatched_named@[k]
                    < args@.len(),
            lengths_fit(names@, args@),
        ensures
            reports_added(
                *old(self),
                *final(self),
                if !enabled || bindings.dots is Some {
                    seq![]
                } else {
                    unknown_reports(
                        old(self).source@,
                        function_name@,
                        name_views(names@),
                        args@,
                        bindings.unmatched_named@,
                        bindings.unmatched_named@.len() as int,
                    )
                },
            ),
    {
        let ghost c0 = *self;
        if !enabled || bindings.dots.is_some() {
            assert(diag_views(self.diagnostics@) =~= diag_views(c0.diagnostics@) + seq![]);
            return;
        }
        let forwards_dots = self.any_forwarded_dots(args);
        let ghost ps = name_views(names@);
        let mut k: usize = 0;
        assert(diag_views(self.diagnostics@) =~= diag_views(c0.diagnostics@) + seq![]);
        while k < bindings.unmatched_named.len()
            invariant
                k <= bindings.unmatched_named@.len(),
                forall|j: int|
                    0 <= j < bindings.unmatched_named@.len() ==> #[trigger] bindings.unmatched_named@[j]
                        < args@.len(),
                lengths_fit(names@, args@),
                ps == name_views(names@),
                forwards_dots == forwards_dots_spec(c0.source@, args@),
                same_state(c0, *self),
                reported(
                    c0,
                    *self,
                    if c0.discarding {
                        seq![]
                    } else {
                        unknown_reports(c0.source@, function_name@, ps, args@, bindings.unmatched_named@, k as int)
                    },
                ),
            decreases bindings.unmatched_named.len() - k,
        {
            let ai = bindings.unmatched_named[k];
            let argument = &args[ai];
            let ghost before = *self;
            let ghost rep = unknown_report(c0.source@, function_name@, ps, args@, ai as int);
            if self.is_forwarded_dots(argument) {
                assert(rep == Seq::<(Severity, Span, Seq<char>, Seq<char>)>::empty());
            } else {
                let argument_name: &str = match &argument.name {
                    Some(n) => n.as_str(),
                    None => "",
                };
                proof {
                    if argument.name is None {
                        reveal_strlit("");
                    }
                }
                assert(argument_name@ == tag_text(args@[ai as int]));
                let mut skip = false;
                if forwards_dots {
                    let tag = crate::matching::semantic_argument_name(argument_name);
                    let mut j: usize = 0;
                    while j < names.len()
                        invariant
                            j <= names@.len(),
                            tag@ == semantic_name(argument_name@),
                            skip == exists|x: int|
                                0 <= x < j && #[trigger] is_prefix(semantic_name(argument_name@), semantic_name(names@[x]@)),
                        decreases names.len() - j,
                    {
                        let formal = crate::matching::semantic_argument_name(names[j]);
                        let hit = crate::text::starts_with(formal.as_str(), tag.as_str());
                        assert(hit == is_prefix(semantic_name(argument_name@), semantic_name(names@[j as int]@)));
                        if hit {
                            skip = true;
                        }
                        j = j + 1;
                    }
                    proof {
                        assert(skip == prefix_of_some_formal(ps, argument_name@)) by {
                            if skip {
                                let x = choose|x: int| 0 <= x < names@.len() && #[trigger] is_prefix(semantic_name(argument_name@), semantic_name(names@[x]@));
                                assert(ps[x] == names@[x]@);
                            }
                            if prefix_of_some_formal(ps, argument_name@) {
                                let x = choose|x: int| 0 <= x < ps.len() && #[trigger] is_prefix(semantic_name(argument_name@), semantic_name(ps[x]));
                                assert(ps[x] == names@[x]@);
                            }
                        }
                    }
                }
                if skip {
                    assert(rep == Seq::<(Severity, Span, Seq<char>, Seq<char>)>::empty());
                } else {
                    proof {
                        assert forall|j: int| 0 <= j < names@.len() implies argument_name@.len() + (#[trigger] names@[j])@.len() <= usize::MAX by {
                            assert(tag_text(args@[ai as int]).len() + names@[j]@.len() <= usize::MAX);
                        }
                    }
                    let hint = crate::matching::closest_parameter(argument_name, names);
                    proof {
                        match hint {
                            Some(h) => {
                                let j = choose|j: int| #![trigger names@[j]] unique_closest(argument_name@, ps, j) && names@[j] == h;
                                let c = choose|j: int| unique_closest(argument_name@, ps, j);
                                lemma_unique_closest_unique(argument_name@, ps, j, c);
                                assert(suggestion(argument_name@, ps) == Some(h@));
                            },
                            None => {
                                assert(suggestion(argument_name@, ps) is None);
                            },
                        }
                    }
                    let message = unknown_message_text(argument_name, function_name, hint);
                    self.emit(Severity::Warning, argument.span, "RY090", message);
                }
            }
            proof {
                assert(unknown_reports(c0.source@, function_name@, ps, args@, bindings.unmatched_named@, k + 1)
                    == unknown_reports(c0.source@, function_name@, ps, args@, bindings.unmatched_named@, k as int) + rep);
                reveal_strlit("RY090");
                assert(diag_views(self.diagnostics@) =~= diag_views(c0.diagnostics@) + (if c0.discarding {
                    seq![]
                } else {
                    unknown_reports(c0.source@, function_name@, ps, args@, bindings.unmatched_named@, k + 1)
                }));
            }
            k = k + 1;
        }
    }
}

impl Checker {
    /// Whether some actual is an exact named hole for formal `name`.
    fn has_named_hole(args: &[Arg], name: &str) -> (r: bool)
        ensures
            r == exists|i: int| 0 <= i < args@.len() && #[trigger] named_hole(args@[i], name@),
    {
        let wanted = crate::matching::semantic_argument_name(name);
        let mut i: usize = 0;
        while i < args.len()
            invariant
                i <= args@.len(),
                wanted@ == semantic_name(name@),
                forall|k: int| 0 <= k < i ==> !#[trigger] named_hole(args@[k], name@),
            decreases args.len() - i,
        {
            match &args[i].name {
                Some(n) => {
                    let tag = crate::matching::semantic_argument_name(n.as_str());
                    if crate::text::str_eq(tag.as_str(), wanted.as_str()) {
                        if let Expr::Missing(_) = &args[i].value {
                            assert(named_hole(args@[i as int], name@));
                            return true;
                        }
                    }
                },
                None => {},
            }
            i = i + 1;
        }
        false
    }

    /// RY091: report each required formal left without a usable actual.
    pub fn emit_missing_required(
        &mut self,
        function_name: &str,
        names: &[&str],
        required: &[bool],
        args: &[Arg],
        bindings: &ArgumentMatch,
        call_span: Span,
    )
        requires
            required@.len() <= names@.len(),
            required@.len() <= bindings.bound_params@.len(),
            bindings.param_for_arg@.len() == args@.len(),
        ensures
            reports_added(
                *old(self),
                *final(self),
                missing_reports(
                    old(self).source@,
                    function_name@,
                    name_views(names@),
                    required@,
                    args@,
                    *bindings,
                    call_span,
                    required@.len() as int,
                ),
            ),
    {
        let ghost c0 = *self;
        let ghost ps = name_views(names@);
        let forwards_dots = self.any_forwarded_dots(args);
        let mut p: usize = 0;
        assert(diag_views(self.diagnostics@) =~= diag_views(c0.diagnostics@) + seq![]);
        while p < required.len()
            invariant
                p <= required@.len(),
                required@.len() <= names@.len(),
                required@.len() <= bindings.bound_params@.len(),
                bindings.param_for_arg@.len() == args@.len(),
                ps == name_views(names@),
                forwards_dots == forwards_dots_spec(c0.source@, args@),
                same_state(c0, *self),
                reported(
                    c0,
                    *self,
                    if c0.discarding {
                        seq![]
                    } else {
                        missing_reports(c0.source@, function_name@, ps, required@, args@, *bindings, call_span, p as int)
                    },
                ),
            decreases required.len() - p,
        {
            let missing = if forwards_dots {
                let r = Self::has_named_hole(args, names[p]);
                assert(r == formal_missing(c0.source@, ps, args@, *bindings, p as int)) by {
                    assert(ps[p as int] == names@[p as int]@);
                }
                r
            } else {
                let unbound = !bindings.bound_params[p];
                let hole = match bindings.arg_for_param(p) {
                    Some(i) => match &args[i].value {
                        Expr::Missing(_) => true,
                        _ => false,
                    },
                    None => false,
                };
                unbound || hole
            };
            if required[p] && missing {
                let message = missing_message_text(names[p], function_name);
                self.emit(Severity::Warning, call_span, "RY091", message);
            }
            proof {
                reveal_strlit("RY091");
                assert(ps[p as int] == names@[p as int]@);
                assert(diag_views(self.diagnostics@) =~= diag_views(c0.diagnostics@) + (if c0.discarding {
                    seq![]
                } else {
                    missing_reports(c0.source@, function_name@, ps, required@, args@, *bindings, call_span, p + 1)
                }));
            }
            p = p + 1;
        }
    }

    /// RY090 and RY091 over one argument match.
    pub fn check_call_arity<P: CallFormal>(
        &mut self,
        function_name: &str,
        params: &[P],
        args: &[Arg],
        bindings: &ArgumentMatch,
        report_unknown: bool,
        call_span: Span,
    )
        requires
            forall|k: int|
                0 <= k < bindings.unmatched_named@.len() ==> #[trigger] bindings.unmatched_named@[k]
                    < args@.len(),
            forall|i: int, j: int|
                0 <= i < args@.len() && 0 <= j < params@.len() ==> tag_text(#[trigger] args@[i]).len()
                    + (#[trigger] params@[j]).formal_name().len() <= usize::MAX,
            params@.len() <= bindings.bound_params@.len(),
            bindings.param_for_arg@.len() == args@.len(),
        ensures
            reports_added(
                *old(self),
                *final(self),
                (if !report_unknown || bindings.dots is Some {
                    seq![]
                } else {
                    unknown_reports(
                        old(self).source@,
                        function_name@,
                        formal_names(params@),
                        args@,
                        bindings.unmatched_named@,
                        bindings.unmatched_named@.len() as int,
                    )
                }) + missing_reports(
                    old(self).source@,
                    function_name@,
                    formal_names(params@),
                    formal_required(params@),
                    args@,
                    *bindings,
                    call_span,
                    params@.len() as int,
                ),
            ),
    {
        let ghost c0 = *self;
        let mut names: Vec<&str> = Vec::new();
        let mut required: Vec<bool> = Vec::new();
        let mut i: usize = 0;
        while i < params.len()
            invariant
                i <= params@.len(),
                names@.len() == i,
                required@.len() == i,
                forall|k: int| 0 <= k < i ==> (#[trigger] names@[k])@ == params@[k].formal_name(),
                forall|k: int| 0 <= k < i ==> #[trigger] required@[k] == params@[k].is_required(),
            decreases params.len() - i,
        {
            names.push(params[i].name());
            required.push(params[i].required());
            i = i + 1;
        }
        proof {
            assert(name_views(names@) =~= formal_names(params@));
            assert(required@ =~= formal_required(params@));
            assert forall|a: int, j: int| 0 <= a < args@.len() && 0 <= j < names@.len() implies tag_text(#[trigger] args@[a]).len()
                + (#[trigger] names@[j])@.len() <= usize::MAX by {
                assert(names@[j]@ == params@[j].formal_name());
            }
        }
        self.emit_unknown_arguments(function_name, names.as_slice(), args, bindings, report_unknown);
        let ghost c1 = *self;
        self.emit_missing_required(function_name, names.as_slice(), required.as_slice(), args, bindings, call_span);
        proof {
            let u = if !report_unknown || bindings.dots is Some {
                seq![]
            } else {
                unknown_reports(c0.source@, function_name@, formal_names(params@), args@, bindings.unmatched_named@, bindings.unmatched_named@.len() as int)
            };
            let m = missing_reports(c0.source@, function_name@, formal_names(params@), formal_required(params@), args@, *bindings, call_span, params@.len() as int);
            assert(diag_views(self.diagnostics@) =~= diag_views(c0.diagnostics@) + (if c0.discarding { seq![] } else { u + m }));
        }
    }

    /// RY090 and RY091 for a call of a function the file defines.
    pub fn check_user_call_arguments(&mut self, function_name: &str, function: &UserFn, args: &[Arg], call_span: Span)
        requires
            forall|i: int, j: int|
                0 <= i < args@.len() && 0 <= j < function.params@.len() ==> tag_text(#[trigger] args@[i]).len()
                    + (#[trigger] function.params@[j]).name@.len() <= usize::MAX,
        ensures
            exists|m: ArgumentMatch|
                match_spec(formal_names(function.params@), arg_tags(args@), m) && reports_added(
                    *old(self),
                    *final(self),
                    (if m.dots is Some {
                        seq![]
                    } else {
                        unknown_reports(
                            old(self).source@,
                            function_name@,
                            formal_names(function.params@),
                            args@,
                            m.unmatched_named@,
                            m.unmatched_named@.len() as int,
                        )
                    }) + missing_reports(
                        old(self).source@,
                        function_name@,
                        formal_names(function.params@),
                        formal_required(function.params@),
                        args@,
                        m,
                        call_span,
                        function.params@.len() as int,
                    ),
                ),
    {
        let mut names: Vec<&str> = Vec::new();
        let mut i: usize = 0;
        while i < function.params.len()
            invariant
                i <= function.params@.len(),
                names@.len() == i,
                forall|k: int| 0 <= k < i ==> (#[trigger] names@[k])@ == function.params@[k].name@,
            decreases function.params.len() - i,
        {
            names.push(function.params[i].name.as_str());
            i = i + 1;
        }
        assert(name_views(names@) =~= formal_names(function.params@));
        let bindings = crate::matching::match_arguments(names.as_slice(), args);
        proof {
            assert forall|k: int| 0 <= k < bindings.unmatched_named@.len() implies #[trigger] bindings.unmatched_named@[k] < args@.len() by {
                crate::matching::lemma_unmatched_in_range(formal_names(function.params@), arg_tags(args@), bindings, k);
            }
        }
        self.check_call_arity(function_name, function.params.as_slice(), args, &bindings, true, call_span);
    }
}

/// The names of a list of formals.
pub open spec fn formal_names<P: CallFormal>(ps: Seq<P>) -> Seq<Seq<char>> {
    ps.map_values(|p: P| p.formal_name())
}

/// Which of a list of formals are required.
pub open spec fn formal_required<P: CallFormal>(ps: Seq<P>) -> Seq<bool> {
    ps.map_values(|p: P| p.is_required())
}

/// Whether an enclosing frame binds a formal spelled (unquoted) `tag`.
pub open spec fn frame_binds(frame: EnclosingFrame, tag: Seq<char>) -> bool {
    exists|k: int| 0 <= k < frame.names@.len() && semantic_name(#[trigger] frame.names@[k]@) == tag
}

/// The innermost of the first `k` frames binding `tag`.
pub open spec fn innermost_owner(frames: Seq<EnclosingFrame>, tag: Seq<char>, k: int) -> Option<int>
    decreases k,
{
    if k <= 0 || k > frames.len() {
        None
    } else if frame_binds(frames[k - 1], tag) {
        Some(k - 1)
    } else {
        innermost_owner(frames, tag, k - 1)
    }
}

/// The innermost enclosing function binding `tag` never reads it.
pub open spec fn dead_formal(frames: Seq<EnclosingFrame>, reads: Seq<(Span, Vec<String>)>, tag: Seq<char>) -> bool {
    match innermost_owner(frames, tag, frames.len() as int) {
        Some(j) => !(crate::reads::reads_view(reads).contains_key(frames[j].function_span)
            && crate::reads::reads_view(reads)[frames[j].function_span].contains(tag)),
        None => false,
    }
}

/// The formal names of the callee the argument rules resolve, if known.
pub open spec fn resolved_formals(
    c: Checker,
    function: Seq<char>,
    user_function: Option<&UserFn>,
    resolved_sig: Option<&FunctionSig>,
    lexical: bool,
) -> Option<Seq<Seq<char>>> {
    match user_function {
        Some(u) => Some(formal_names(u.params@)),
        None => match resolved_sig {
            Some(sig) => if !lexical && (c.validate_user_call_arguments || !defines(c.fn_table@, function)) {
                Some(formal_names(sig.params@))
            } else {
                None
            },
            None => None,
        },
    }
}

/// The RY111 message.
pub open spec fn shadow_message(tag: Seq<char>, constant: bool, function: Seq<char>) -> Seq<char> {
    "argument `"@ + tag + " = "@ + (if constant { "TRUE"@ } else { "FALSE"@ }) + "` to `"@ + function
        + "` is a constant shadowing the identically-named formal of an enclosing function, so the caller's `"@
        + tag + "` value is silently ignored; forward it as `"@ + tag + " = "@ + tag + "` instead"@
}

/// The RY111 report for actual `a`: a `TRUE`/`FALSE` literal whose tag
/// names a dead formal of an enclosing function and a formal of the callee.
pub open spec fn shadow_report(
    frames: Seq<EnclosingFrame>,
    reads: Seq<(Span, Vec<String>)>,
    formals: Seq<Seq<char>>,
    function: Seq<char>,
    a: Arg,
) -> Seq<(Severity, Span, Seq<char>, Seq<char>)> {
    match a.name {
        Some(n) => {
            let tag = semantic_name(n@);
            if tag.len() == 0 || tag == dots_text() || !dead_formal(frames, reads, tag) {
                seq![]
            } else {
                match a.value {
                    Expr::Logical(value, span) => if exists|j: int|
                        0 <= j < formals.len() && #[trigger] semantic_name(formals[j]) == tag {
                        seq![(Severity::Warning, span, "RY111"@, shadow_message(tag, value, function))]
                    } else {
                        seq![]
                    },
                    _ => seq![],
                }
            }
        },
        None => seq![],
    }
}

/// The RY111 reports for the first `k` actuals.
pub open spec fn shadow_reports(
    frames: Seq<EnclosingFrame>,
    reads: Seq<(Span, Vec<String>)>,
    formals: Seq<Seq<char>>,
    function: Seq<char>,
    args: Seq<Arg>,
    k: int,
) -> Seq<(Severity, Span, Seq<char>, Seq<char>)>
    decreases k,
{
    if k <= 0 || k > args.len() {
        seq![]
    } else {
        shadow_reports(frames, reads, formals, function, args, k - 1) + shadow_report(
            frames,
            reads,
            formals,
            function,
            args[k - 1],
        )
    }
}

/// Build the RY111 message text.
fn shadow_message_text(tag: &str, constant: bool, function_name: &str) -> (r: String)
    ensures
        r@ == shadow_message(tag@, constant, function_name@),
{
    let mut m = String::from_str("argument `");
    m.append(tag);
    m.append(" = ");
    m.append(if constant { "TRUE" } else { "FALSE" });
    m.append("` to `");
    m.append(function_name);
    m.append(
        "` is a constant shadowing the identically-named formal of an enclosing function, so the caller's `",
    );
    m.append(tag);
    m.append("` value is silently ignored; forward it as `");
    m.append(tag);
    m.append(" = ");
    m.append(tag);
    m.append("` instead");
    m
}

/// The formal names of a list of formals, as text.
fn formal_name_list<P: CallFormal>(params: &[P]) -> (r: Vec<&str>)
    ensures
        name_views(r@) == formal_names(params@),
{
    let mut names: Vec<&str> = Vec::new();
    let mut i: usize = 0;
    while i < params.len()
        invariant
            i <= params@.len(),
            names@.len() == i,
            forall|k: int| 0 <= k < i ==> (#[trigger] names@[k])@ == params@[k].formal_name(),
        decreases params.len() - i,
    {
        names.push(params[i].name());
        i = i + 1;
    }
    assert(name_views(names@) =~= formal_names(params@));
    names
}

impl Checker {
    /// Whether the innermost enclosing function binding `tag` never reads it.
    fn owner_is_dead(&self, tag: &str) -> (r: bool)
        ensures
            r == dead_formal(self.enclosing_formals@, self.formal_reads@, tag@),
    {
        let frames = &self.enclosing_formals;
        let mut k: usize = frames.len();
        while k > 0
            invariant
                k <= frames@.len(),
                frames@ == self.enclosing_formals@,
                innermost_owner(frames@, tag@, frames@.len() as int) == innermost_owner(frames@, tag@, k as int),
            decreases k,
        {
            let frame = &frames[k - 1];
            let mut binds = false;
            let mut j: usize = 0;
            while j < frame.names.len()
                invariant
                    j <= frame.names@.len(),
                    binds == exists|x: int| 0 <= x < j && semantic_name(#[trigger] frame.names@[x]@) == tag@,
                decreases frame.names.len() - j,
            {
                let formal = crate::matching::semantic_argument_name(frame.names[j].as_str());
                if crate::text::str_eq(formal.as_str(), tag) {
                    binds = true;
                }
                j = j + 1;
            }
            if binds {
                assert(frame_binds(frames@[k - 1], tag@));
                assert(innermost_owner(frames@, tag@, k as int) == Some((k - 1) as int));
                let r = match crate::reads::formal_reads_for(&self.formal_reads, frame.function_span) {
                    Some(reads) => {
                        let c = names_contain(reads, tag);
                        assert(crate::assigned::name_set(reads@).contains(tag@) == has_name(reads@, tag@));
                        !c
                    },
                    None => true,
                };
                return r;
            }
            k = k - 1;
        }
        false
    }

    /// Whether some formal of `formals` is spelled (unquoted) `tag`.
    fn formals_contain(formals: &Vec<&str>, tag: &str) -> (r: bool)
        ensures
            r == exists|j: int|
                0 <= j < formals@.len() && #[trigger] semantic_name(formals@[j]@) == tag@,
    {
        let mut j: usize = 0;
        while j < formals.len()
            invariant
                j <= formals@.len(),
                forall|x: int| 0 <= x < j ==> semantic_name(#[trigger] formals@[x]@) != tag@,
            decreases formals.len() - j,
        {
            let formal = crate::matching::semantic_argument_name(formals[j]);
            if crate::text::str_eq(formal.as_str(), tag) {
                return true;
            }
            j = j + 1;
        }
        false
    }

    /// RY111: a `TRUE`/`FALSE` literal passed for a formal that an
    /// enclosing function also has, under the identical name, and never
    /// reads -- the caller's value for it is silently ignored.
    pub fn check_constant_shadowed_arguments(
        &mut self,
        function_name: &str,
        user_function: Option<&UserFn>,
        resolved_sig: Option<&FunctionSig>,
        lexical_callable: bool,
        args: &[Arg],
    )
        ensures
            reports_added(
                *old(self),
                *final(self),
                if old(self).enclosing_formals@.len() == 0 {
                    seq![]
                } else {
                    match resolved_formals(*old(self), function_name@, user_function, resolved_sig, lexical_callable) {
                        Some(formals) => shadow_reports(
                            old(self).enclosing_formals@,
                            old(self).formal_reads@,
                            formals,
                            function_name@,
                            args@,
                            args@.len() as int,
                        ),
                        None => seq![],
                    }
                },
            ),
    {
        let ghost c0 = *self;
        assert(diag_views(self.diagnostics@) =~= diag_views(c0.diagnostics@) + seq![]);
        if self.discarding || self.enclosing_formals.len() == 0 {
            return;
        }
        let formals: Vec<&str> = match self.resolve_callee(function_name, user_function, resolved_sig, lexical_callable) {
            ResolvedCallee::User(u) => formal_name_list(u.params.as_slice()),
            ResolvedCallee::Stub(sig) => formal_name_list(sig.params.as_slice()),
            ResolvedCallee::Unknown => return,
        };
        let ghost fs = name_views(formals@);
        let mut i: usize = 0;
        while i < args.len()
            invariant
                i <= args@.len(),
                !c0.discarding,
                fs == name_views(formals@),
                resolved_formals(c0, function_name@, user_function, resolved_sig, lexical_callable) == Some(fs),
                same_state(c0, *self),
                reported(c0, *self, shadow_reports(c0.enclosing_formals@, c0.formal_reads@, fs, function_name@, args@, i as int)),
            decreases args.len() - i,
        {
            let ghost before = *self;
            let ghost rep = shadow_report(c0.enclosing_formals@, c0.formal_reads@, fs, function_name@, args@[i as int]);
            match &args[i].name {
                Some(n) => {
                    let tag = crate::matching::semantic_argument_name(n.as_str());
                    if !(tag.unicode_len() == 0 || crate::matching::is_dots(tag.as_str()) || !self.owner_is_dead(tag.as_str())) {
                        match &args[i].value {
                            Expr::Logical(value, span) => {
                                let hit = Self::formals_contain(&formals, tag.as_str());
                                proof {
                                    assert(hit == exists|j: int| 0 <= j < fs.len() && #[trigger] semantic_name(fs[j]) == tag@) by {
                                        if hit {
                                            let j = choose|j: int| 0 <= j < formals@.len() && #[trigger] semantic_name(formals@[j]@) == tag@;
                                            assert(fs[j] == formals@[j]@);
                                        }
                                        if exists|j: int| 0 <= j < fs.len() && #[trigger] semantic_name(fs[j]) == tag@ {
                                            let j = choose|j: int| 0 <= j < fs.len() && #[trigger] semantic_name(fs[j]) == tag@;
                                            assert(fs[j] == formals@[j]@);
                                        }
                                    }
                                }
                                if hit {
                                    let message = shadow_message_text(tag.as_str(), *value, function_name);
                                    self.emit(Severity::Warning, *span, "RY111", message);
                                }
                            },
                            _ => {},
                        }
                    }
                },
                None => {},
            }
            proof {
                reveal_strlit("RY111");
                assert(diag_views(self.diagnostics@) =~= diag_views(c0.diagnostics@) + shadow_reports(
                    c0.enclosing_formals@, c0.formal_reads@, fs, function_name@, args@, i + 1));
            }
            i = i + 1;
        }
    }
}

/// The first statement of `body` at or after `from` that assigns the plain
/// identifier `local`.
pub open spec fn assign_position(body: Seq<Stmt>, local: Seq<char>, from: int) -> Option<int>
    decreases body.len() - from,
{
    if from < 0 || from >= body.len() {
        None
    } else if assigns_ident(body[from], local) {
        Some(from)
    } else {
        assign_position(body, local, from + 1)
    }
}

/// Whether `s` is `local <- value`.
pub open spec fn assigns_ident(s: Stmt, local: Seq<char>) -> bool {
    match s {
        Stmt::Assign { target, .. } => match target {
            Expr::Ident { name, .. } => name@ == local,
            _ => false,
        },
        _ => false,
    }
}

/// The first guaranteed force of `w` among `body[from..end]`.
pub open spec fn forced_before(body: Seq<Stmt>, end: int, w: Seq<char>, t: Seq<String>, from: int) -> Option<Span>
    decreases end - from,
{
    if from < 0 || from >= end || from >= body.len() {
        None
    } else {
        match definite_stmt(body[from], w, t) {
            Some(sp) => Some(sp),
            None => forced_before(body, end, w, t, from + 1),
        }
    }
}

/// Whether some formal is named exactly `n`.
pub open spec fn formal_named(params: Seq<Param>, n: Seq<char>) -> bool {
    exists|i: int| 0 <= i < params.len() && #[trigger] params[i].name@ == n
}

/// The force of `w` that comes before the body assigns `local`, when
/// `local` is a body-local the default evaluates.
pub open spec fn early_force(
    params: Seq<Param>,
    body: Seq<Stmt>,
    assigned: Seq<String>,
    t: Seq<String>,
    d: Expr,
    w: Seq<char>,
    local: Seq<char>,
) -> Option<Span> {
    if executed_expr(d).contains(local) && has_name(assigned, local) && !formal_named(params, local) {
        match assign_position(body, local, 0) {
            Some(ai) => forced_before(body, ai, w, t, 0),
            None => None,
        }
    } else {
        None
    }
}

/// The RY098 message for a default that recurses into itself.
pub open spec fn recursive_default_message(w: Seq<char>) -> Seq<char> {
    "parameter `"@ + w + "` has a self-referential default that recurses when forced"@
}

/// The RY098 message for a default forced before a body-local it reads is
/// assigned.
pub open spec fn early_default_message(w: Seq<char>, local: Seq<char>) -> Seq<char> {
    "parameter `"@ + w + "` may force its default before body-local `"@ + local + "` is assigned"@
}

/// The RY098 reports for parameter `p`: a default that evaluates the
/// parameter itself when the body is guaranteed to force it; otherwise one
/// report for some body-local the default reads whose assignment comes
/// after a guaranteed force of the parameter.
pub open spec fn lazy_default_reports(
    params: Seq<Param>,
    body: Seq<Stmt>,
    assigned: Seq<String>,
    t: Seq<String>,
    p: int,
    rep: Seq<(Severity, Span, Seq<char>, Seq<char>)>,
) -> bool {
    match params[p].default {
        None => rep == Seq::<(Severity, Span, Seq<char>, Seq<char>)>::empty(),
        Some(d) => {
            let w = params[p].name@;
            if forces_before_replacement(body, 0, w, t) && first_exec(d, w, t) is Some {
                rep == seq![(Severity::Warning, first_exec(d, w, t)->0, "RY098"@, recursive_default_message(w))]
            } else if exists|local: Seq<char>| #[trigger] early_force(params, body, assigned, t, d, w, local) is Some {
                exists|local: Seq<char>|
                    #[trigger] early_force(params, body, assigned, t, d, w, local) is Some && rep == seq![
                        (
                            Severity::Warning,
                            early_force(params, body, assigned, t, d, w, local)->0,
                            "RY098"@,
                            early_default_message(w, local),
                        )
                    ]
            } else {
                rep == Seq::<(Severity, Span, Seq<char>, Seq<char>)>::empty()
            }
        },
    }
}

/// The reports of a list of parameters, concatenated.
pub open spec fn concat_reports(reps: Seq<Seq<(Severity, Span, Seq<char>, Seq<char>)>>) -> Seq<(Severity, Span, Seq<char>, Seq<char>)>
    decreases reps.len(),
{
    if reps.len() == 0 {
        seq![]
    } else {
        concat_reports(reps.drop_last()) + reps.last()
    }
}

/// The cached trusted defusers, when present, agree with the function table.
pub open spec fn cache_consistent(c: Checker) -> bool {
    c.trusted_defusers matches Some(cached) ==> forall|n: Seq<char>|
        has_name(cached@, n) == trusted_spec(c.fn_table@, n)
}

/// The trusted defusers the function table gives, as a list.
pub open spec fn trusted_list(table: Seq<(String, UserFn)>, v: Seq<String>) -> bool {
    forall|n: Seq<char>| has_name(v, n) == trusted_spec(table, n)
}

fn recursive_default_text(name: &str) -> (r: String)
    ensures
        r@ == recursive_default_message(name@),
{
    let mut m = String::from_str("parameter `");
    m.append(name);
    m.append("` has a self-referential default that recurses when forced");
    m
}

fn early_default_text(name: &str, local: &str) -> (r: String)
    ensures
        r@ == early_default_message(name@, local@),
{
    let mut m = String::from_str("parameter `");
    m.append(name);
    m.append("` may force its default before body-local `");
    m.append(local);
    m.append("` is assigned");
    m
}

/// The first statement assigning the plain identifier `local`.
fn find_assignment(body: &Vec<Stmt>, local: &str) -> (r: Option<usize>)
    ensures
        opt_index(r) == assign_position(body@, local@, 0),
        r matches Some(i) ==> i < body@.len(),
{
    let mut i: usize = 0;
    while i < body.len()
        invariant
            i <= body@.len(),
            assign_position(body@, local@, 0) == assign_position(body@, local@, i as int),
        decreases body.len() - i,
    {
        let hit = match &body[i] {
            Stmt::Assign { target, .. } => match target {
                Expr::Ident { name, .. } => crate::text::str_eq(name.as_str(), local),
                _ => false,
            },
            _ => false,
        };
        if hit {
            return Some(i);
        }
        i = i + 1;
    }
    None
}

/// An optional index as an integer.
pub open spec fn opt_index(o: Option<usize>) -> Option<int> {
    match o {
        Some(i) => Some(i as int),
        None => None,
    }
}

/// The first guaranteed force of `wanted` among `body[..end]`.
fn first_force_before(body: &Vec<Stmt>, end: usize, wanted: &str, trusted: &Vec<String>) -> (r: Option<Span>)
    requires
        end <= body@.len(),
    ensures
        r == forced_before(body@, end as int, wanted@, trusted@, 0),
{
    let mut i: usize = 0;
    while i < end
        invariant
            i <= end <= body@.len(),
            forced_before(body@, end as int, wanted@, trusted@, 0) == forced_before(body@, end as int, wanted@, trusted@, i as int),
        decreases end - i,
    {
        let found = definitely_forced_identifier_in_stmt(&body[i], wanted, trusted);
        if found.is_some() {
            return found;
        }
        i = i + 1;
    }
    None
}

impl Checker {
    /// RY098: a parameter default that provably misbehaves when forced --
    /// it evaluates the parameter itself while the body is guaranteed to
    /// force it, or it reads a body-local that the body assigns only after
    /// a guaranteed force of the parameter.
    pub fn check_lazy_default_reachability(&mut self, params: &Vec<Param>, body: &Vec<Stmt>, assigned: &Vec<String>)
        requires
            cache_consistent(*old(self)),
        ensures
            cache_consistent(*final(self)),
            final(self).discarding == old(self).discarding,
            final(self).fn_table == old(self).fn_table,
            final(self).source == old(self).source,
            final(self).enclosing_formals == old(self).enclosing_formals,
            final(self).formal_reads == old(self).formal_reads,
            final(self).loop_frames == old(self).loop_frames,
            exists|t: Seq<String>, reps: Seq<Seq<(Severity, Span, Seq<char>, Seq<char>)>>|
                #![trigger trusted_list(old(self).fn_table@, t), reps.len()]
                trusted_list(old(self).fn_table@, t) && reps.len() == params@.len() && (forall|p: int|
                    0 <= p < params@.len() ==> #[trigger] lazy_default_reports(params@, body@, assigned@, t, p, reps[p]))
                    && reported(*old(self), *final(self), if old(self).discarding {
                    seq![]
                } else {
                    concat_reports(reps)
                }),
    {
        let ghost c0 = *self;
        let trusted = self.trusted_defusers();
        let ghost t = trusted@;
        let ghost mut reps: Seq<Seq<(Severity, Span, Seq<char>, Seq<char>)>> = seq![];
        assert(diag_views(self.diagnostics@) =~= diag_views(c0.diagnostics@) + seq![]);
        let mut p: usize = 0;
        while p < params.len()
            invariant
                p <= params@.len(),
                trusted@ == t,
                trusted_list(c0.fn_table@, t),
                cache_consistent(*self),
                self.discarding == c0.discarding,
                self.fn_table == c0.fn_table,
                self.source == c0.source,
                self.enclosing_formals == c0.enclosing_formals,
                self.formal_reads == c0.formal_reads,
                self.loop_frames == c0.loop_frames,
                self.validate_user_call_arguments == c0.validate_user_call_arguments,
                reps.len() == p,
                forall|q: int| 0 <= q < p ==> #[trigger] lazy_default_reports(params@, body@, assigned@, t, q, reps[q]),
                diag_views(self.diagnostics@) == diag_views(c0.diagnostics@) + (if c0.discarding {
                    seq![]
                } else {
                    concat_reports(reps)
                }),
            decreases params.len() - p,
        {
            let ghost before = *self;
            let ghost mut rep: Seq<(Severity, Span, Seq<char>, Seq<char>)> = seq![];
            let param = &params[p];
            match &param.default {
                None => {},
                Some(default) => {
                    let wanted = param.name.as_str();
                    let forced_in_body = guaranteed_force_before_replacement(body, wanted, &trusted);
                    let own = if forced_in_body {
                        first_executed_identifier(default, wanted, &trusted)
                    } else {
                        None
                    };
                    match own {
                        Some(span) => {
                            let message = recursive_default_text(wanted);
                            self.emit(Severity::Warning, span, "RY098", message);
                            proof {
                                reveal_strlit("RY098");
                                rep = seq![(Severity::Warning, span, "RY098"@, recursive_default_message(wanted@))];
                            }
                        },
                        None => {
                            let mut references: Vec<String> = Vec::new();
                            assert(crate::assigned::name_set(references@) =~= Set::<Seq<char>>::empty());
                            collect_executed_identifiers(default, &mut references);
                            assert(crate::assigned::name_set(references@) =~= executed_expr(*default));
                            let mut k: usize = 0;
                            let mut done = false;
                            while k < references.len() && !done
                                invariant
                                    k <= references@.len(),
                                    crate::assigned::name_set(references@) == executed_expr(*default),
                                    trusted@ == t,
                                    !done ==> forall|x: int| 0 <= x < k ==> #[trigger] early_force(params@, body@, assigned@, t, *default, wanted@, references@[x]@) is None,
                                    !done ==> *self == before,
                                    !done ==> rep == Seq::<(Severity, Span, Seq<char>, Seq<char>)>::empty(),
                                    done ==> exists|local: Seq<char>| #[trigger] early_force(params@, body@, assigned@, t, *default, wanted@, local) is Some && rep == seq![
                                        (Severity::Warning, early_force(params@, body@, assigned@, t, *default, wanted@, local)->0, "RY098"@, early_default_message(wanted@, local))
                                    ] && reported(before, *self, emitted(before, rep[0])),
                                    done ==> same_state(before, *self),
                                decreases references.len() - k, if done { 0int } else { 1int },
                            {
                                let local = references[k].as_str();
                                let qualifies = names_contain(assigned, local) && !formals_named(params, local);
                                if qualifies {
                                    match find_assignment(body, local) {
                                        Some(ai) => {
                                            match first_force_before(body, ai, wanted, &trusted) {
                                                Some(span) => {
                                                    proof {
                                                        assert(executed_expr(*default).contains(local@));
                                                        assert(early_force(params@, body@, assigned@, t, *default, wanted@, local@) == Some(span));
                                                    }
                                                    let message = early_default_text(wanted, local);
                                                    self.emit(Severity::Warning, span, "RY098", message);
                                                    proof {
                                                        reveal_strlit("RY098");
                                                        rep = seq![(Severity::Warning, span, "RY098"@, early_default_message(wanted@, local@))];
                                                    }
                                                    done = true;
                                                },
                                                None => {},
                                            }
                                        },
                                        None => {},
                                    }
                                }
                                k = k + 1;
                            }
                            proof {
                                if !done {
                                    assert forall|local: Seq<char>| #[trigger] early_force(params@, body@, assigned@, t, *default, wanted@, local) is None by {
                                        if executed_expr(*default).contains(local) {
                                            assert(crate::assigned::name_set(references@).contains(local));
                                            let x = choose|x: int| 0 <= x < references@.len() && #[trigger] references@[x]@ == local;
                                            assert(early_force(params@, body@, assigned@, t, *default, wanted@, references@[x]@) is None);
                                        }
                                    }
                                }
                            }
                        },
                    }
                },
            }
            proof {
                assert(lazy_default_reports(params@, body@, assigned@, t, p as int, rep));
                let nreps = reps.push(rep);
                assert(nreps.drop_last() =~= reps);
                assert(diag_views(self.diagnostics@) =~= diag_views(c0.diagnostics@) + (if c0.discarding {
                    seq![]
                } else {
                    concat_reports(nreps)
                }));
                reps = nreps;
            }
            p = p + 1;
        }
        proof {
            assert(trusted_list(c0.fn_table@, t) && reps.len() == params@.len() && (forall|q: int|
                0 <= q < params@.len() ==> #[trigger] lazy_default_reports(params@, body@, assigned@, t, q, reps[q]))
                && reported(c0, *self, if c0.discarding { seq![] } else { concat_reports(reps) }));
        }
    }
}

/// Whether some formal is named exactly `name`.
fn formals_named(params: &Vec<Param>, name: &str) -> (r: bool)
    ensures
        r == formal_named(params@, name@),
{
    let mut i: usize = 0;
    while i < params.len()
        invariant
            i <= params@.len(),
            forall|k: int| 0 <= k < i ==> (#[trigger] params@[k]).name@ != name@,
        decreases params.len() - i,
    {
        if crate::text::str_eq(params[i].name.as_str(), name) {
            return true;
        }
        i = i + 1;
    }
    false
}
} // verus!
