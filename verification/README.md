# ry_checker

Type inference and diagnostic rules of a static checker for R, written in
Verus. Every function carries a contract over a mathematical model of the
syntax tree, the inferred types and the scope, and Verus proves that the
code meets it.

Layout of `src/`:

- `ast`, `types`, `scope`: the lowered R syntax tree, the type lattice
  (modes, lengths, classes, unions, field schemas) and lexical scopes.
- `matching`, `typeshed`: R's argument matching (exact, partial, positional,
  dots) and the stub signatures the checker consults.
- `narrow`, `condition`, `merge`, `loops`: type refinement from conditions,
  assignments inside conditions, joining branch scopes, and the scopes that
  leave a loop through `break`, `next` or its end.
- `assigned`, `reads`, `force`, `quoting`: which names a body assigns or
  reads, superassignment targets, and which promises are forced.
- `literals`, `construct`, `subscript`, `result_length`, `shapes`,
  `callsites`, `attributes`: what constructors, subscripts and literal
  arguments give.
- `binop`, `index`, `index_write`, `infer_leaf`: expression inference for
  binary and unary operators, subscripts and writes through them, literals
  and unbound names, with the diagnostics they raise.
- `typed_args`, `stub_narrowing`, `ops_chooser`, `recall`: calls of stub
  functions, predicates the stubs declare, operator dispatch, and recalled
  call facts.
- `checker`, `call_checks`, `test_template`, `guards`, `pipes`, `loaders`,
  `modes`, `dynamic_closure`: the diagnostics and the facts they rest on.
- `signatures`, `stubs`, `s3`: `c(...)` and `data.frame(...)` results, a
  stub's declared return applied to a call, the stub database and project
  facts, and S3 dispatch of operators over the method table.
- `inference`: the driver. `Checker::infer` infers any expression,
  `Checker::walk_stmt` and `Checker::walk_stmts` walk statements (blocks,
  `if`, `for`, `while`, function bodies, `return`), and
  `Checker::infer_call` infers calls: callee aliases and namespace
  qualifiers, RY070 for a literal or a bound value called as a function,
  RY093/RY100/RY094, RY096 for `hasArg`, `switch`, `assign(name, value)`, arguments (those a
  stub passes unevaluated excepted), RY090/RY091 against the callee's
  formals, the constructors (`c`, `list`, `data.frame`, `t`,
  `as.data.frame`, `vector`, `rep`) and a stub's declared return. `&&` and
  `||` narrow the scope of their right operand. Operators dispatch to S3
  methods first. Each function is specified by a derivation relation built
  from the per-node rules above, with findings in evaluation order.
- `laws`: properties that span several functions, stated and proved.

What the driver does not model: pipes (their left side is inferred, the
result is opaque), `tryCatch`, `structure`, `foreach`, S4 and user S3
dispatch of calls, higher-order built-ins, quoting and data-masking verbs,
tidy evaluation, the return types of the file's own functions and of
function literals called in place (both opaque), `seq`'s literal length,
the types stubs declare for formals (RY092 needs them passed to
`check_typeshed_call_arguments`), and reading R source text: a front end
hands the library a lowered syntax tree.
