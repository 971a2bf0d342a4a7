//! What a visit of a subtree can do, stated over the tree: call the global
//! `eval`, set a CommonJS marker, report an error, create an import record,
//! or find a reference of a class to itself.
use vstd::prelude::*;
use crate::ast::{AssignmentTarget, Expression, Statement, VariableDeclarator};
use crate::rules::{await_rejected, cjs_markers, global_require_call, is_global_named, static_chain};
use crate::types::OutputFormat;
use crate::semantic::Semantic;

verus! {

broadcast use vstd::std_specs::vec::group_vec_axioms;

/// Whether evaluating or declaring `e` involves a call of the global `eval`
/// anywhere in it, function bodies included.
pub open spec fn calls_eval(sem: Semantic, e: Expression) -> bool
    decreases e,
{
    match e {
        Expression::Identifier(_) | Expression::StringLiteral { .. } => false,
        Expression::StaticMember { object, .. } => calls_eval(sem, *object),
        Expression::ComputedMember { object, property, .. } => calls_eval(sem, *object) || calls_eval(sem, *property),
        Expression::Call { callee, arguments, .. } => is_global_named(sem, *callee, "eval"@) || calls_eval(sem, *callee)
            || exists|i: int| 0 <= i < arguments@.len() && calls_eval(sem, #[trigger] arguments@[i]),
        Expression::Import { source, .. } => calls_eval(sem, *source),
        Expression::Await { argument, .. } => calls_eval(sem, *argument),
        Expression::Assignment { left, right, .. } => (match left {
            AssignmentTarget::Identifier(_) => false,
            AssignmentTarget::StaticMember { object, .. } => calls_eval(sem, *object),
            AssignmentTarget::Other(target) => calls_eval(sem, *target),
        }) || calls_eval(sem, *right),
        Expression::Sequence { expressions, .. } =>
            exists|i: int| 0 <= i < expressions@.len() && calls_eval(sem, #[trigger] expressions@[i]),
        Expression::Parenthesized { expression, .. } => calls_eval(sem, *expression),
        Expression::Function { body, .. } =>
            exists|i: int| 0 <= i < body@.len() && stmt_calls_eval(sem, #[trigger] body@[i]),
        Expression::Other { operands, .. } =>
            exists|i: int| 0 <= i < operands@.len() && calls_eval(sem, #[trigger] operands@[i]),
    }
}

/// `calls_eval` for a statement.
pub open spec fn stmt_calls_eval(sem: Semantic, s: Statement) -> bool
    decreases s,
{
    match s {
        Statement::Expression { expression, .. } => calls_eval(sem, expression),
        Statement::VariableDeclaration { declarations, .. } =>
            exists|i: int| 0 <= i < declarations@.len() && match #[trigger] declarations@[i].init {
                Some(init) => calls_eval(sem, init),
                None => false,
            },
        Statement::FunctionDeclaration { body, .. } =>
            exists|i: int| 0 <= i < body@.len() && stmt_calls_eval(sem, #[trigger] body@[i]),
        Statement::ClassDeclaration(class) =>
            exists|i: int| 0 <= i < class.members@.len() && calls_eval(sem, #[trigger] class.members@[i]),
        Statement::Import { .. } => false,
        Statement::ForOf { left, right, body, .. } => calls_eval(sem, left) || calls_eval(sem, right) || stmt_calls_eval(sem, *body),
        Statement::Block { body, .. } =>
            exists|i: int| 0 <= i < body@.len() && stmt_calls_eval(sem, #[trigger] body@[i]),
        Statement::Other { expressions, body, .. } =>
            (exists|i: int| 0 <= i < expressions@.len() && calls_eval(sem, #[trigger] expressions@[i]))
            || exists|i: int| 0 <= i < body@.len() && stmt_calls_eval(sem, #[trigger] body@[i]),
    }
}

/// Some of the first `n` expressions call the global `eval`.
pub open spec fn any_calls_eval(sem: Semantic, es: Seq<Expression>, n: int) -> bool {
    exists|i: int| 0 <= i < n && calls_eval(sem, #[trigger] es[i])
}

/// Some of the first `n` statements call the global `eval`.
pub open spec fn any_stmt_calls_eval(sem: Semantic, ss: Seq<Statement>, n: int) -> bool {
    exists|i: int| 0 <= i < n && stmt_calls_eval(sem, #[trigger] ss[i])
}

pub proof fn lemma_any_calls_eval_step(sem: Semantic, es: Seq<Expression>, n: int)
    requires
        0 <= n < es.len(),
    ensures
        any_calls_eval(sem, es, n + 1) == (any_calls_eval(sem, es, n) || calls_eval(sem, es[n])),
{
    if any_calls_eval(sem, es, n + 1) && !calls_eval(sem, es[n]) {
        let i = choose|i: int| 0 <= i < n + 1 && calls_eval(sem, #[trigger] es[i]);
        assert(i < n);
    }
}

pub proof fn lemma_any_stmt_calls_eval_step(sem: Semantic, ss: Seq<Statement>, n: int)
    requires
        0 <= n < ss.len(),
    ensures
        any_stmt_calls_eval(sem, ss, n + 1) == (any_stmt_calls_eval(sem, ss, n) || stmt_calls_eval(sem, ss[n])),
{
    if any_stmt_calls_eval(sem, ss, n + 1) && !stmt_calls_eval(sem, ss[n]) {
        let i = choose|i: int| 0 <= i < n + 1 && stmt_calls_eval(sem, #[trigger] ss[i]);
        assert(i < n);
    }
}

/// Whether `e` holds, anywhere in it, function bodies included, an
/// assignment that gives the CommonJS marker of `module` (when `module`) or of
/// `exports`.
pub open spec fn sets_marker(sem: Semantic, module: bool, e: Expression) -> bool
    decreases e,
{
    match e {
        Expression::Identifier(_) | Expression::StringLiteral { .. } => false,
        Expression::StaticMember { object, .. } => sets_marker(sem, module, *object),
        Expression::ComputedMember { object, property, .. } => sets_marker(sem, module, *object) || sets_marker(sem, module, *property),
        Expression::Call { callee, arguments, .. } => sets_marker(sem, module, *callee)
            || exists|i: int| 0 <= i < arguments@.len() && sets_marker(sem, module, #[trigger] arguments@[i]),
        Expression::Import { source, .. } => sets_marker(sem, module, *source),
        Expression::Await { argument, .. } => sets_marker(sem, module, *argument),
        Expression::Assignment { left, right, .. } => (if module {
            cjs_markers(sem, left).0 is Some
        } else {
            cjs_markers(sem, left).1 is Some
        }) || (match left {
            AssignmentTarget::Identifier(_) => false,
            AssignmentTarget::StaticMember { object, .. } => sets_marker(sem, module, *object),
            AssignmentTarget::Other(target) => sets_marker(sem, module, *target),
        }) || sets_marker(sem, module, *right),
        Expression::Sequence { expressions, .. } =>
            exists|i: int| 0 <= i < expressions@.len() && sets_marker(sem, module, #[trigger] expressions@[i]),
        Expression::Parenthesized { expression, .. } => sets_marker(sem, module, *expression),
        Expression::Function { body, .. } =>
            exists|i: int| 0 <= i < body@.len() && stmt_sets_marker(sem, module, #[trigger] body@[i]),
        Expression::Other { operands, .. } =>
            exists|i: int| 0 <= i < operands@.len() && sets_marker(sem, module, #[trigger] operands@[i]),
    }
}

/// `sets_marker` for a statement.
pub open spec fn stmt_sets_marker(sem: Semantic, module: bool, s: Statement) -> bool
    decreases s,
{
    match s {
        Statement::Expression { expression, .. } => sets_marker(sem, module, expression),
        Statement::VariableDeclaration { declarations, .. } =>
            exists|i: int| 0 <= i < declarations@.len() && match #[trigger] declarations@[i].init {
                Some(init) => sets_marker(sem, module, init),
                None => false,
            },
        Statement::FunctionDeclaration { body, .. } =>
            exists|i: int| 0 <= i < body@.len() && stmt_sets_marker(sem, module, #[trigger] body@[i]),
        Statement::ClassDeclaration(class) =>
            exists|i: int| 0 <= i < class.members@.len() && sets_marker(sem, module, #[trigger] class.members@[i]),
        Statement::Import { .. } => false,
        Statement::ForOf { left, right, body, .. } => sets_marker(sem, module, left) || sets_marker(sem, module, right) || stmt_sets_marker(sem, module, *body),
        Statement::Block { body, .. } =>
            exists|i: int| 0 <= i < body@.len() && stmt_sets_marker(sem, module, #[trigger] body@[i]),
        Statement::Other { expressions, body, .. } =>
            (exists|i: int| 0 <= i < expressions@.len() && sets_marker(sem, module, #[trigger] expressions@[i]))
            || exists|i: int| 0 <= i < body@.len() && stmt_sets_marker(sem, module, #[trigger] body@[i]),
    }
}

/// Some of the first `n` expressions give the marker.
pub open spec fn any_sets_marker(sem: Semantic, module: bool, es: Seq<Expression>, n: int) -> bool {
    exists|i: int| 0 <= i < n && sets_marker(sem, module, #[trigger] es[i])
}

/// Some of the first `n` statements give the marker.
pub open spec fn any_stmt_sets_marker(sem: Semantic, module: bool, ss: Seq<Statement>, n: int) -> bool {
    exists|i: int| 0 <= i < n && stmt_sets_marker(sem, module, #[trigger] ss[i])
}

pub proof fn lemma_any_sets_marker_step(sem: Semantic, module: bool, es: Seq<Expression>, n: int)
    requires
        0 <= n < es.len(),
    ensures
        any_sets_marker(sem, module, es, n + 1) == (any_sets_marker(sem, module, es, n) || sets_marker(sem, module, es[n])),
{
    if any_sets_marker(sem, module, es, n + 1) && !sets_marker(sem, module, es[n]) {
        let i = choose|i: int| 0 <= i < n + 1 && sets_marker(sem, module, #[trigger] es[i]);
        assert(i < n);
    }
}

pub proof fn lemma_any_stmt_sets_marker_step(sem: Semantic, module: bool, ss: Seq<Statement>, n: int)
    requires
        0 <= n < ss.len(),
    ensures
        any_stmt_sets_marker(sem, module, ss, n + 1) == (any_stmt_sets_marker(sem, module, ss, n) || stmt_sets_marker(sem, module, ss[n])),
{
    if any_stmt_sets_marker(sem, module, ss, n + 1) && !stmt_sets_marker(sem, module, ss[n]) {
        let i = choose|i: int| 0 <= i < n + 1 && stmt_sets_marker(sem, module, #[trigger] ss[i]);
        assert(i < n);
    }
}

/// Whether an initializer calls the global `eval` (`k == 0`), or gives the
/// marker of `module` (`k == 1`) or of `exports` (any other `k`).
pub open spec fn init_hits(sem: Semantic, k: int, init: Option<Expression>) -> bool {
    match init {
        Some(e) => if k == 0 {
            calls_eval(sem, e)
        } else {
            sets_marker(sem, k == 1, e)
        },
        None => false,
    }
}

/// `init_hits` for some of the first `n` declarators.
pub open spec fn any_init_hits(sem: Semantic, k: int, ds: Seq<VariableDeclarator>, n: int) -> bool {
    exists|j: int| 0 <= j < n && init_hits(sem, k, #[trigger] ds[j].init)
}

pub proof fn lemma_any_init_hits_step(sem: Semantic, k: int, ds: Seq<VariableDeclarator>, n: int)
    requires
        0 <= n < ds.len(),
    ensures
        any_init_hits(sem, k, ds, n + 1) == (any_init_hits(sem, k, ds, n) || init_hits(sem, k, ds[n].init)),
{
    if any_init_hits(sem, k, ds, n + 1) && !init_hits(sem, k, ds[n].init) {
        let j = choose|j: int| 0 <= j < n + 1 && init_hits(sem, k, #[trigger] ds[j].init);
        assert(j < n);
    }
}

/// Whether the scan reports an error anywhere in `e`, function bodies
/// included: a top-level `await` that `format` cannot keep (`top` says whether
/// `e` is at the top level), or an assignment to a `const` binding.
pub open spec fn adds_error(sem: Semantic, format: Option<OutputFormat>, top: bool, e: Expression) -> bool
    decreases e,
{
    match e {
        Expression::Identifier(_) | Expression::StringLiteral { .. } => false,
        Expression::StaticMember { object, .. } => adds_error(sem, format, top, *object),
        Expression::ComputedMember { object, property, .. } => adds_error(sem, format, top, *object) || adds_error(sem, format, top, *property),
        Expression::Call { callee, arguments, .. } => adds_error(sem, format, top, *callee)
            || exists|i: int| 0 <= i < arguments@.len() && adds_error(sem, format, top, #[trigger] arguments@[i]),
        Expression::Import { source, .. } => adds_error(sem, format, top, *source),
        Expression::Await { argument, .. } => await_rejected(format, top) || adds_error(sem, format, top, *argument),
        Expression::Assignment { left, right, .. } => (match left {
            AssignmentTarget::Identifier(id) => match sem.resolved(id.reference_id) {
                Some(s) => sem.spec_is_const_symbol(s),
                None => false,
            },
            AssignmentTarget::StaticMember { object, .. } => adds_error(sem, format, top, *object),
            AssignmentTarget::Other(target) => adds_error(sem, format, top, *target),
        }) || adds_error(sem, format, top, *right),
        Expression::Sequence { expressions, .. } =>
            exists|i: int| 0 <= i < expressions@.len() && adds_error(sem, format, top, #[trigger] expressions@[i]),
        Expression::Parenthesized { expression, .. } => adds_error(sem, format, top, *expression),
        Expression::Function { body, .. } =>
            exists|i: int| 0 <= i < body@.len() && stmt_adds_error(sem, format, false, #[trigger] body@[i]),
        Expression::Other { operands, .. } =>
            exists|i: int| 0 <= i < operands@.len() && adds_error(sem, format, top, #[trigger] operands@[i]),
    }
}

/// `adds_error` for a statement.
pub open spec fn stmt_adds_error(sem: Semantic, format: Option<OutputFormat>, top: bool, s: Statement) -> bool
    decreases s,
{
    match s {
        Statement::Expression { expression, .. } => adds_error(sem, format, top, expression),
        Statement::VariableDeclaration { declarations, .. } =>
            exists|i: int| 0 <= i < declarations@.len() && match #[trigger] declarations@[i].init {
                Some(init) => adds_error(sem, format, top, init),
                None => false,
            },
        Statement::FunctionDeclaration { body, .. } =>
            exists|i: int| 0 <= i < body@.len() && stmt_adds_error(sem, format, false, #[trigger] body@[i]),
        Statement::ClassDeclaration(class) =>
            exists|i: int| 0 <= i < class.members@.len() && adds_error(sem, format, top, #[trigger] class.members@[i]),
        Statement::Import { .. } => false,
        Statement::ForOf { is_await, left, right, body, .. } => (is_await && await_rejected(format, top)) || adds_error(sem, format, top, left) || adds_error(sem, format, top, right) || stmt_adds_error(sem, format, top, *body),
        Statement::Block { body, .. } =>
            exists|i: int| 0 <= i < body@.len() && stmt_adds_error(sem, format, top, #[trigger] body@[i]),
        Statement::Other { expressions, body, .. } =>
            (exists|i: int| 0 <= i < expressions@.len() && adds_error(sem, format, top, #[trigger] expressions@[i]))
            || exists|i: int| 0 <= i < body@.len() && stmt_adds_error(sem, format, top, #[trigger] body@[i]),
    }
}

/// Some of the first `n` expressions give an error.
pub open spec fn any_adds_error(sem: Semantic, format: Option<OutputFormat>, top: bool, es: Seq<Expression>, n: int) -> bool {
    exists|i: int| 0 <= i < n && adds_error(sem, format, top, #[trigger] es[i])
}

/// Some of the first `n` statements give an error.
pub open spec fn any_stmt_adds_error(sem: Semantic, format: Option<OutputFormat>, top: bool, ss: Seq<Statement>, n: int) -> bool {
    exists|i: int| 0 <= i < n && stmt_adds_error(sem, format, top, #[trigger] ss[i])
}

pub proof fn lemma_any_adds_error_step(sem: Semantic, format: Option<OutputFormat>, top: bool, es: Seq<Expression>, n: int)
    requires
        0 <= n < es.len(),
    ensures
        any_adds_error(sem, format, top, es, n + 1) == (any_adds_error(sem, format, top, es, n) || adds_error(sem, format, top, es[n])),
{
    if any_adds_error(sem, format, top, es, n + 1) && !adds_error(sem, format, top, es[n]) {
        let i = choose|i: int| 0 <= i < n + 1 && adds_error(sem, format, top, #[trigger] es[i]);
        assert(i < n);
    }
}

pub proof fn lemma_any_stmt_adds_error_step(sem: Semantic, format: Option<OutputFormat>, top: bool, ss: Seq<Statement>, n: int)
    requires
        0 <= n < ss.len(),
    ensures
        any_stmt_adds_error(sem, format, top, ss, n + 1) == (any_stmt_adds_error(sem, format, top, ss, n) || stmt_adds_error(sem, format, top, ss[n])),
{
    if any_stmt_adds_error(sem, format, top, ss, n + 1) && !stmt_adds_error(sem, format, top, ss[n]) {
        let i = choose|i: int| 0 <= i < n + 1 && stmt_adds_error(sem, format, top, #[trigger] ss[i]);
        assert(i < n);
    }
}

/// Some of the first `n` declarators have an initializer that gives an error.
pub open spec fn any_init_adds_error(
    sem: Semantic,
    format: Option<OutputFormat>,
    top: bool,
    ds: Seq<VariableDeclarator>,
    n: int,
) -> bool {
    exists|j: int| 0 <= j < n && match #[trigger] ds[j].init {
        Some(e) => adds_error(sem, format, top, e),
        None => false,
    }
}

pub proof fn lemma_any_init_adds_error_step(
    sem: Semantic,
    format: Option<OutputFormat>,
    top: bool,
    ds: Seq<VariableDeclarator>,
    n: int,
)
    requires
        0 <= n < ds.len(),
    ensures
        any_init_adds_error(sem, format, top, ds, n + 1) == (any_init_adds_error(sem, format, top, ds, n) || match ds[n].init {
            Some(e) => adds_error(sem, format, top, e),
            None => false,
        }),
{
    if any_init_adds_error(sem, format, top, ds, n + 1) && !(match ds[n].init {
        Some(e) => adds_error(sem, format, top, e),
        None => false,
    }) {
        let j = choose|j: int| 0 <= j < n + 1 && match #[trigger] ds[j].init {
            Some(e) => adds_error(sem, format, top, e),
            None => false,
        };
        assert(j < n);
    }
}

/// Whether the scan creates an import record anywhere in `e`, function
/// bodies included: for `require` or `import()` of a string literal, or for
/// an import declaration.
pub open spec fn adds_record(sem: Semantic, e: Expression) -> bool
    decreases e,
{
    match e {
        Expression::Identifier(_) | Expression::StringLiteral { .. } => false,
        Expression::StaticMember { object, .. } => adds_record(sem, *object),
        Expression::ComputedMember { object, property, .. } => adds_record(sem, *object) || adds_record(sem, *property),
        Expression::Call { callee, arguments, .. } => (global_require_call(sem, *callee, arguments@)
            && arguments@[0] is StringLiteral) || adds_record(sem, *callee)
            || exists|i: int| 0 <= i < arguments@.len() && adds_record(sem, #[trigger] arguments@[i]),
        Expression::Import { source, .. } => *source is StringLiteral || adds_record(sem, *source),
        Expression::Await { argument, .. } => adds_record(sem, *argument),
        Expression::Assignment { left, right, .. } => (match left {
            AssignmentTarget::Identifier(_) => false,
            AssignmentTarget::StaticMember { object, .. } => adds_record(sem, *object),
            AssignmentTarget::Other(target) => adds_record(sem, *target),
        }) || adds_record(sem, *right),
        Expression::Sequence { expressions, .. } =>
            exists|i: int| 0 <= i < expressions@.len() && adds_record(sem, #[trigger] expressions@[i]),
        Expression::Parenthesized { expression, .. } => adds_record(sem, *expression),
        Expression::Function { body, .. } =>
            exists|i: int| 0 <= i < body@.len() && stmt_adds_record(sem, #[trigger] body@[i]),
        Expression::Other { operands, .. } =>
            exists|i: int| 0 <= i < operands@.len() && adds_record(sem, #[trigger] operands@[i]),
    }
}

/// `adds_record` for a statement.
pub open spec fn stmt_adds_record(sem: Semantic, s: Statement) -> bool
    decreases s,
{
    match s {
        Statement::Expression { expression, .. } => adds_record(sem, expression),
        Statement::VariableDeclaration { declarations, .. } =>
            exists|i: int| 0 <= i < declarations@.len() && match #[trigger] declarations@[i].init {
                Some(init) => adds_record(sem, init),
                None => false,
            },
        Statement::FunctionDeclaration { body, .. } =>
            exists|i: int| 0 <= i < body@.len() && stmt_adds_record(sem, #[trigger] body@[i]),
        Statement::ClassDeclaration(class) =>
            exists|i: int| 0 <= i < class.members@.len() && adds_record(sem, #[trigger] class.members@[i]),
        Statement::Import { .. } => true,
        Statement::ForOf { left, right, body, .. } => adds_record(sem, left) || adds_record(sem, right) || stmt_adds_record(sem, *body),
        Statement::Block { body, .. } =>
            exists|i: int| 0 <= i < body@.len() && stmt_adds_record(sem, #[trigger] body@[i]),
        Statement::Other { expressions, body, .. } =>
            (exists|i: int| 0 <= i < expressions@.len() && adds_record(sem, #[trigger] expressions@[i]))
            || exists|i: int| 0 <= i < body@.len() && stmt_adds_record(sem, #[trigger] body@[i]),
    }
}

/// Some of the first `n` expressions create a record.
pub open spec fn any_adds_record(sem: Semantic, es: Seq<Expression>, n: int) -> bool {
    exists|i: int| 0 <= i < n && adds_record(sem, #[trigger] es[i])
}

/// Some of the first `n` statements create a record.
pub open spec fn any_stmt_adds_record(sem: Semantic, ss: Seq<Statement>, n: int) -> bool {
    exists|i: int| 0 <= i < n && stmt_adds_record(sem, #[trigger] ss[i])
}

pub proof fn lemma_any_adds_record_step(sem: Semantic, es: Seq<Expression>, n: int)
    requires
        0 <= n < es.len(),
    ensures
        any_adds_record(sem, es, n + 1) == (any_adds_record(sem, es, n) || adds_record(sem, es[n])),
{
    if any_adds_record(sem, es, n + 1) && !adds_record(sem, es[n]) {
        let i = choose|i: int| 0 <= i < n + 1 && adds_record(sem, #[trigger] es[i]);
        assert(i < n);
    }
}

pub proof fn lemma_any_stmt_adds_record_step(sem: Semantic, ss: Seq<Statement>, n: int)
    requires
        0 <= n < ss.len(),
    ensures
        any_stmt_adds_record(sem, ss, n + 1) == (any_stmt_adds_record(sem, ss, n) || stmt_adds_record(sem, ss[n])),
{
    if any_stmt_adds_record(sem, ss, n + 1) && !stmt_adds_record(sem, ss[n]) {
        let i = choose|i: int| 0 <= i < n + 1 && stmt_adds_record(sem, #[trigger] ss[i]);
        assert(i < n);
    }
}

/// Some of the first `n` declarators have an initializer that creates a record.
pub open spec fn any_init_adds_record(sem: Semantic, ds: Seq<VariableDeclarator>, n: int) -> bool {
    exists|j: int| 0 <= j < n && match #[trigger] ds[j].init {
        Some(e) => adds_record(sem, e),
        None => false,
    }
}

pub proof fn lemma_any_init_adds_record_step(sem: Semantic, ds: Seq<VariableDeclarator>, n: int)
    requires
        0 <= n < ds.len(),
    ensures
        any_init_adds_record(sem, ds, n + 1) == (any_init_adds_record(sem, ds, n) || match ds[n].init {
            Some(e) => adds_record(sem, e),
            None => false,
        }),
{
    if any_init_adds_record(sem, ds, n + 1) && !(match ds[n].init {
        Some(e) => adds_record(sem, e),
        None => false,
    }) {
        let j = choose|j: int| 0 <= j < n + 1 && match #[trigger] ds[j].init {
            Some(e) => adds_record(sem, e),
            None => false,
        };
        assert(j < n);
    }
}

/// Whether `e` holds, function bodies included, a name that resolves to the
/// class symbol `c` while `c` is the class being declared (`ctx` is the class
/// being declared around `e`).
pub open spec fn refers_to_class(sem: Semantic, ctx: Option<usize>, c: usize, e: Expression) -> bool
    decreases e,
{
    match e {
        Expression::Identifier(id) => ctx == Some(c) && sem.resolved(id.reference_id) == Some(c),
        Expression::StringLiteral { .. } => false,
        Expression::StaticMember { object, .. } => refers_to_class(sem, ctx, c, *object),
        Expression::ComputedMember { object, property, .. } => refers_to_class(sem, ctx, c, *object) || refers_to_class(sem, ctx, c, *property),
        Expression::Call { callee, arguments, .. } => refers_to_class(sem, ctx, c, *callee)
            || exists|i: int| 0 <= i < arguments@.len() && refers_to_class(sem, ctx, c, #[trigger] arguments@[i]),
        Expression::Import { source, .. } => refers_to_class(sem, ctx, c, *source),
        Expression::Await { argument, .. } => refers_to_class(sem, ctx, c, *argument),
        Expression::Assignment { left, right, .. } => (match left {
            AssignmentTarget::Identifier(id) => ctx == Some(c) && sem.resolved(id.reference_id) == Some(c),
            AssignmentTarget::StaticMember { object, .. } => refers_to_class(sem, ctx, c, *object),
            AssignmentTarget::Other(target) => refers_to_class(sem, ctx, c, *target),
        }) || refers_to_class(sem, ctx, c, *right),
        Expression::Sequence { expressions, .. } =>
            exists|i: int| 0 <= i < expressions@.len() && refers_to_class(sem, ctx, c, #[trigger] expressions@[i]),
        Expression::Parenthesized { expression, .. } => refers_to_class(sem, ctx, c, *expression),
        Expression::Function { body, .. } =>
            exists|i: int| 0 <= i < body@.len() && stmt_refers_to_class(sem, ctx, c, #[trigger] body@[i]),
        Expression::Other { operands, .. } =>
            exists|i: int| 0 <= i < operands@.len() && refers_to_class(sem, ctx, c, #[trigger] operands@[i]),
    }
}

/// `refers_to_class` for a statement.
pub open spec fn stmt_refers_to_class(sem: Semantic, ctx: Option<usize>, c: usize, s: Statement) -> bool
    decreases s,
{
    match s {
        Statement::Expression { expression, .. } => refers_to_class(sem, ctx, c, expression),
        Statement::VariableDeclaration { declarations, .. } =>
            exists|i: int| 0 <= i < declarations@.len() && match #[trigger] declarations@[i].init {
                Some(init) => refers_to_class(sem, ctx, c, init),
                None => false,
            },
        Statement::FunctionDeclaration { body, .. } =>
            exists|i: int| 0 <= i < body@.len() && stmt_refers_to_class(sem, ctx, c, #[trigger] body@[i]),
        Statement::ClassDeclaration(class) => {
            let inner = match class.id {
                Some(id) => Some(id.symbol_id),
                None => ctx,
            };
            exists|i: int| 0 <= i < class.members@.len() && refers_to_class(sem, inner, c, #[trigger] class.members@[i])
        },
        Statement::Import { .. } => false,
        Statement::ForOf { left, right, body, .. } => refers_to_class(sem, ctx, c, left) || refers_to_class(sem, ctx, c, right) || stmt_refers_to_class(sem, ctx, c, *body),
        Statement::Block { body, .. } =>
            exists|i: int| 0 <= i < body@.len() && stmt_refers_to_class(sem, ctx, c, #[trigger] body@[i]),
        Statement::Other { expressions, body, .. } =>
            (exists|i: int| 0 <= i < expressions@.len() && refers_to_class(sem, ctx, c, #[trigger] expressions@[i]))
            || exists|i: int| 0 <= i < body@.len() && stmt_refers_to_class(sem, ctx, c, #[trigger] body@[i]),
    }
}

/// Some of the first `n` expressions refer to the class `c`.
pub open spec fn any_refers_to_class(sem: Semantic, ctx: Option<usize>, c: usize, es: Seq<Expression>, n: int) -> bool {
    exists|i: int| 0 <= i < n && refers_to_class(sem, ctx, c, #[trigger] es[i])
}

/// Some of the first `n` statements refer to the class `c`.
pub open spec fn any_stmt_refers_to_class(sem: Semantic, ctx: Option<usize>, c: usize, ss: Seq<Statement>, n: int) -> bool {
    exists|i: int| 0 <= i < n && stmt_refers_to_class(sem, ctx, c, #[trigger] ss[i])
}

pub proof fn lemma_any_refers_to_class_step(sem: Semantic, ctx: Option<usize>, c: usize, es: Seq<Expression>, n: int)
    requires
        0 <= n < es.len(),
    ensures
        any_refers_to_class(sem, ctx, c, es, n + 1) == (any_refers_to_class(sem, ctx, c, es, n) || refers_to_class(sem, ctx, c, es[n])),
{
    if any_refers_to_class(sem, ctx, c, es, n + 1) && !refers_to_class(sem, ctx, c, es[n]) {
        let i = choose|i: int| 0 <= i < n + 1 && refers_to_class(sem, ctx, c, #[trigger] es[i]);
        assert(i < n);
    }
}

pub proof fn lemma_any_stmt_refers_to_class_step(sem: Semantic, ctx: Option<usize>, c: usize, ss: Seq<Statement>, n: int)
    requires
        0 <= n < ss.len(),
    ensures
        any_stmt_refers_to_class(sem, ctx, c, ss, n + 1) == (any_stmt_refers_to_class(sem, ctx, c, ss, n) || stmt_refers_to_class(sem, ctx, c, ss[n])),
{
    if any_stmt_refers_to_class(sem, ctx, c, ss, n + 1) && !stmt_refers_to_class(sem, ctx, c, ss[n]) {
        let i = choose|i: int| 0 <= i < n + 1 && stmt_refers_to_class(sem, ctx, c, #[trigger] ss[i]);
        assert(i < n);
    }
}

/// Some of the first `n` declarators have an initializer that refers to `c`.
pub open spec fn any_init_refers_to_class(sem: Semantic, ctx: Option<usize>, c: usize, ds: Seq<VariableDeclarator>, n: int) -> bool {
    exists|j: int| 0 <= j < n && match #[trigger] ds[j].init {
        Some(e) => refers_to_class(sem, ctx, c, e),
        None => false,
    }
}

pub proof fn lemma_any_init_refers_to_class_step(sem: Semantic, ctx: Option<usize>, c: usize, ds: Seq<VariableDeclarator>, n: int)
    requires
        0 <= n < ds.len(),
    ensures
        any_init_refers_to_class(sem, ctx, c, ds, n + 1) == (any_init_refers_to_class(sem, ctx, c, ds, n) || match ds[n].init {
            Some(e) => refers_to_class(sem, ctx, c, e),
            None => false,
        }),
{
    if any_init_refers_to_class(sem, ctx, c, ds, n + 1) && !(match ds[n].init {
        Some(e) => refers_to_class(sem, ctx, c, e),
        None => false,
    }) {
        let j = choose|j: int| 0 <= j < n + 1 && match #[trigger] ds[j].init {
            Some(e) => refers_to_class(sem, ctx, c, e),
            None => false,
        };
        assert(j < n);
    }
}

/// A chain of static property reads refers to the class being declared
/// exactly when its root name does.
pub proof fn lemma_static_chain_refers_to_root(sem: Semantic, ctx: Option<usize>, object: Expression, property: String)
    requires
        static_chain(object, property) is Some,
    ensures
        forall|c: usize| #[trigger] refers_to_class(sem, ctx, c, object)
            == (ctx == Some(c) && sem.resolved(static_chain(object, property)->Some_0.0) == Some(c)),
    decreases object,
{
    if let Expression::StaticMember { object: inner, property: p, .. } = object {
        lemma_static_chain_refers_to_root(sem, ctx, *inner, p);
        assert forall|c: usize| #[trigger] refers_to_class(sem, ctx, c, object)
            == (ctx == Some(c) && sem.resolved(static_chain(object, property)->Some_0.0) == Some(c)) by {
            assert(refers_to_class(sem, ctx, c, object) == refers_to_class(sem, ctx, c, *inner));
        }
    }
}

/// A chain of static property reads rooted at a name holds no call.
pub proof fn lemma_static_chain_has_no_effect(sem: Semantic, object: Expression, property: String)
    requires
        static_chain(object, property) is Some,
    ensures
        !calls_eval(sem, object),
        !sets_marker(sem, true, object),
        !sets_marker(sem, false, object),
        forall|format: Option<OutputFormat>, top: bool| !#[trigger] adds_error(sem, format, top, object),
        !adds_record(sem, object),
        record_count(sem, object, false) == 0,
        record_count(sem, object, true) == 0,
        forall|format: Option<OutputFormat>, top: bool| #[trigger] error_count(sem, format, top, object) == 0,
    decreases object,
{
    if let Expression::StaticMember { object: inner, property: p, .. } = object {
        lemma_static_chain_has_no_effect(sem, *inner, p);
    }
    assert forall|format: Option<OutputFormat>, top: bool| !#[trigger] adds_error(sem, format, top, object) by {
        if let Expression::StaticMember { object: inner, .. } = object {
            assert(!adds_error(sem, format, top, *inner));
        }
    }
    assert forall|format: Option<OutputFormat>, top: bool| #[trigger] error_count(sem, format, top, object) == 0 by {
        if let Expression::StaticMember { object: inner, .. } = object {
            assert(error_count(sem, format, top, *inner) == 0);
        }
    }
}


/// How many import records (`entries` false) or imports entries (`entries`
/// true) the scan of `e` creates: one for each `require` or `import()` of a
/// string literal; an import declaration creates a record but no entry.
pub open spec fn record_count(sem: Semantic, e: Expression, entries: bool) -> nat
    decreases e, 0nat,
{
    match e {
        Expression::Identifier(_) | Expression::StringLiteral { .. } => 0,
        Expression::StaticMember { object, .. } => record_count(sem, *object, entries),
        Expression::ComputedMember { object, property, .. } => record_count(sem, *object, entries) + record_count(sem, *property, entries),
        Expression::Call { callee, arguments, .. } => (if global_require_call(sem, *callee, arguments@) && arguments@[0] is StringLiteral {
            1nat
        } else {
            0nat
        }) + record_count(sem, *callee, entries) + records_in(sem, arguments@, arguments@.len() as int, entries),
        Expression::Import { source, .. } => (if *source is StringLiteral {
            1nat
        } else {
            0nat
        }) + record_count(sem, *source, entries),
        Expression::Await { argument, .. } => record_count(sem, *argument, entries),
        Expression::Assignment { left, right, .. } => (match left {
            AssignmentTarget::Identifier(_) => 0nat,
            AssignmentTarget::StaticMember { object, .. } => record_count(sem, *object, entries),
            AssignmentTarget::Other(target) => record_count(sem, *target, entries),
        }) + record_count(sem, *right, entries),
        Expression::Sequence { expressions, .. } => records_in(sem, expressions@, expressions@.len() as int, entries),
        Expression::Parenthesized { expression, .. } => record_count(sem, *expression, entries),
        Expression::Function { body, .. } => stmt_records_in(sem, body@, body@.len() as int, entries),
        Expression::Other { operands, .. } => records_in(sem, operands@, operands@.len() as int, entries),
    }
}

/// `record_count` summed over the first `n` expressions.
pub open spec fn records_in(sem: Semantic, es: Seq<Expression>, n: int, entries: bool) -> nat
    decreases es, n,
{
    if n <= 0 || n > es.len() {
        0
    } else {
        records_in(sem, es, n - 1, entries) + record_count(sem, es[n - 1], entries)
    }
}

/// `record_count` for a statement.
pub open spec fn stmt_record_count(sem: Semantic, s: Statement, entries: bool) -> nat
    decreases s, 0nat,
{
    match s {
        Statement::Expression { expression, .. } => record_count(sem, expression, entries),
        Statement::VariableDeclaration { declarations, .. } => init_records_in(sem, declarations@, declarations@.len() as int, entries),
        Statement::FunctionDeclaration { body, .. } => stmt_records_in(sem, body@, body@.len() as int, entries),
        Statement::ClassDeclaration(class) => records_in(sem, class.members@, class.members@.len() as int, entries),
        Statement::Import { .. } => if entries {
            0
        } else {
            1
        },
        Statement::ForOf { left, right, body, .. } => record_count(sem, left, entries) + record_count(sem, right, entries)
            + stmt_record_count(sem, *body, entries),
        Statement::Block { body, .. } => stmt_records_in(sem, body@, body@.len() as int, entries),
        Statement::Other { expressions, body, .. } => records_in(sem, expressions@, expressions@.len() as int, entries)
            + stmt_records_in(sem, body@, body@.len() as int, entries),
    }
}

/// `stmt_record_count` summed over the first `n` statements.
pub open spec fn stmt_records_in(sem: Semantic, ss: Seq<Statement>, n: int, entries: bool) -> nat
    decreases ss, n,
{
    if n <= 0 || n > ss.len() {
        0
    } else {
        stmt_records_in(sem, ss, n - 1, entries) + stmt_record_count(sem, ss[n - 1], entries)
    }
}

/// `record_count` summed over the initializers of the first `n` declarators.
pub open spec fn init_records_in(sem: Semantic, ds: Seq<VariableDeclarator>, n: int, entries: bool) -> nat
    decreases ds, n,
{
    if n <= 0 || n > ds.len() {
        0
    } else {
        init_records_in(sem, ds, n - 1, entries) + match ds[n - 1].init {
            Some(e) => record_count(sem, e, entries),
            None => 0,
        }
    }
}

/// How many errors the scan of `e` reports: one for each top-level `await`
/// (or `for await`) that `format` cannot keep, `top` saying whether `e` is at
/// the top level, and one for each assignment to a `const` binding.
pub open spec fn error_count(sem: Semantic, format: Option<OutputFormat>, top: bool, e: Expression) -> nat
    decreases e, 0nat,
{
    match e {
        Expression::Identifier(_) | Expression::StringLiteral { .. } => 0,
        Expression::StaticMember { object, .. } => error_count(sem, format, top, *object),
        Expression::ComputedMember { object, property, .. } => error_count(sem, format, top, *object) + error_count(sem, format, top, *property),
        Expression::Call { callee, arguments, .. } => error_count(sem, format, top, *callee) + errors_in(sem, format, top, arguments@, arguments@.len() as int),
        Expression::Import { source, .. } => error_count(sem, format, top, *source),
        Expression::Await { argument, .. } => (if await_rejected(format, top) {
            1nat
        } else {
            0nat
        }) + error_count(sem, format, top, *argument),
        Expression::Assignment { left, right, .. } => (match left {
            AssignmentTarget::Identifier(id) => match sem.resolved(id.reference_id) {
                Some(s) => if sem.spec_is_const_symbol(s) {
                    1nat
                } else {
                    0nat
                },
                None => 0nat,
            },
            AssignmentTarget::StaticMember { object, .. } => error_count(sem, format, top, *object),
            AssignmentTarget::Other(target) => error_count(sem, format, top, *target),
        }) + error_count(sem, format, top, *right),
        Expression::Sequence { expressions, .. } => errors_in(sem, format, top, expressions@, expressions@.len() as int),
        Expression::Parenthesized { expression, .. } => error_count(sem, format, top, *expression),
        Expression::Function { body, .. } => stmt_errors_in(sem, format, false, body@, body@.len() as int),
        Expression::Other { operands, .. } => errors_in(sem, format, top, operands@, operands@.len() as int),
    }
}

/// `error_count` summed over the first `n` expressions.
pub open spec fn errors_in(sem: Semantic, format: Option<OutputFormat>, top: bool, es: Seq<Expression>, n: int) -> nat
    decreases es, n,
{
    if n <= 0 || n > es.len() {
        0
    } else {
        errors_in(sem, format, top, es, n - 1) + error_count(sem, format, top, es[n - 1])
    }
}

/// `error_count` for a statement.
pub open spec fn stmt_error_count(sem: Semantic, format: Option<OutputFormat>, top: bool, s: Statement) -> nat
    decreases s, 0nat,
{
    match s {
        Statement::Expression { expression, .. } => error_count(sem, format, top, expression),
        Statement::VariableDeclaration { declarations, .. } => init_errors_in(sem, format, top, declarations@, declarations@.len() as int),
        Statement::FunctionDeclaration { body, .. } => stmt_errors_in(sem, format, false, body@, body@.len() as int),
        Statement::ClassDeclaration(class) => errors_in(sem, format, top, class.members@, class.members@.len() as int),
        Statement::Import { .. } => 0,
        Statement::ForOf { is_await, left, right, body, .. } => (if is_await && await_rejected(format, top) {
            1nat
        } else {
            0nat
        }) + error_count(sem, format, top, left) + error_count(sem, format, top, right)
            + stmt_error_count(sem, format, top, *body),
        Statement::Block { body, .. } => stmt_errors_in(sem, format, top, body@, body@.len() as int),
        Statement::Other { expressions, body, .. } => errors_in(sem, format, top, expressions@, expressions@.len() as int)
            + stmt_errors_in(sem, format, top, body@, body@.len() as int),
    }
}

/// `stmt_record_count` summed over the first `n` statements.
pub open spec fn stmt_errors_in(sem: Semantic, format: Option<OutputFormat>, top: bool, ss: Seq<Statement>, n: int) -> nat
    decreases ss, n,
{
    if n <= 0 || n > ss.len() {
        0
    } else {
        stmt_errors_in(sem, format, top, ss, n - 1) + stmt_error_count(sem, format, top, ss[n - 1])
    }
}

/// `error_count` summed over the initializers of the first `n` declarators.
pub open spec fn init_errors_in(sem: Semantic, format: Option<OutputFormat>, top: bool, ds: Seq<VariableDeclarator>, n: int) -> nat
    decreases ds, n,
{
    if n <= 0 || n > ds.len() {
        0
    } else {
        init_errors_in(sem, format, top, ds, n - 1) + match ds[n - 1].init {
            Some(e) => error_count(sem, format, top, e),
            None => 0,
        }
    }
}

} // verus!
