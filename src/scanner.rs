use vstd::prelude::*;
use crate::ast::{AssignmentTarget, BindingIdentifier, Class, Expression, IdentifierReference, Program, Statement};
use crate::require_usage::{require_unused, Ancestor};
use crate::rules::{
    await_rejected, cjs_markers, cjs_markers_of, dynamic_import_meta, global_require_call,
    is_global_eval, is_global_named, is_global_require_call, member_chain, require_meta, static_chain,
    top_level_await_rejected,
};
use crate::semantic::Semantic;
use crate::subtree::{
    error_count, errors_in, stmt_error_count, stmt_errors_in, init_errors_in,
    record_count, records_in, stmt_record_count, stmt_records_in, init_records_in,
    any_calls_eval, any_sets_marker, any_stmt_calls_eval, any_stmt_sets_marker, calls_eval,
    lemma_any_calls_eval_step, lemma_any_sets_marker_step, lemma_any_stmt_calls_eval_step,
    lemma_any_stmt_sets_marker_step, lemma_static_chain_has_no_effect, lemma_static_chain_refers_to_root, sets_marker, stmt_calls_eval,
    stmt_sets_marker, any_init_hits, lemma_any_init_hits_step, adds_error, stmt_adds_error, any_adds_error,
    any_stmt_adds_error, any_init_adds_error, lemma_any_adds_error_step, lemma_any_stmt_adds_error_step,
    lemma_any_init_adds_error_step, adds_record, stmt_adds_record, any_adds_record, any_stmt_adds_record,
    any_init_adds_record, refers_to_class, stmt_refers_to_class, any_refers_to_class, any_stmt_refers_to_class,
    any_init_refers_to_class, lemma_any_refers_to_class_step, lemma_any_stmt_refers_to_class_step,
    lemma_any_init_refers_to_class_step, lemma_any_adds_record_step, lemma_any_stmt_adds_record_step, lemma_any_init_adds_record_step,
};
use crate::side_effect::{has_side_effect, pure_statement};
use crate::span::Span;
use crate::types::{
    Diagnostic, DiagnosticKind, ImportKind, ImportRecord, ImportRecordMeta, NamedImport,
    OutputFormat, ScanResult, StmtInfo, SymbolRef,
};

verus! {

broadcast use vstd::std_specs::vec::group_vec_axioms;

#[derive(Clone, Copy, Debug, PartialEq, Eq, Structural)]
pub enum ScopeKind {
    Function,
    Block,
}

/// `a` is a prefix of `b`.
pub open spec fn prefix_of<T>(a: Seq<T>, b: Seq<T>) -> bool {
    a.len() <= b.len() && forall|i: int| 0 <= i < a.len() ==> b[i] == a[i]
}

/// The state of the scan of one module.
pub struct AstScanner {
    pub semantic: Semantic,
    pub file_path: String,
    /// The text of the module.
    pub source: String,
    pub format: Option<OutputFormat>,
    pub result: ScanResult,
    pub current_stmt_info: StmtInfo,
    /// The kinds of the nodes that enclose the one being visited, innermost last.
    pub visit_path: Vec<Ancestor>,
    /// The scopes that enclose the node being visited, innermost last; the
    /// module scope itself is not on it.
    pub scope_stack: Vec<ScopeKind>,
    /// The symbol of the named class declaration being visited, if any.
    pub cur_class_decl: Option<usize>,
    /// The span of `module` in the first `module.exports` assignment.
    pub cjs_module_ident: Option<Span>,
    /// The span of `exports` in the first `exports.x` assignment.
    pub cjs_exports_ident: Option<Span>,
}

fn contains_symbol(v: &Vec<usize>, s: usize) -> (r: bool)
    ensures
        r == v@.contains(s),
{
    let mut i: usize = 0;
    while i < v.len()
        invariant
            i <= v@.len(),
            forall|j: int| 0 <= j < i ==> v@[j] != s,
        decreases v@.len() - i,
    {
        if v[i] == s {
            return true;
        }
        i = i + 1;
    }
    false
}

/// The span of an expression.
pub fn expression_span(e: &Expression) -> (r: Span)
    ensures
        r == spec_expression_span(*e),
{
    match e {
        Expression::Identifier(id) => id.span,
        Expression::StringLiteral { span, .. } => *span,
        Expression::StaticMember { span, .. } => *span,
        Expression::ComputedMember { span, .. } => *span,
        Expression::Call { span, .. } => *span,
        Expression::Import { span, .. } => *span,
        Expression::Await { span, .. } => *span,
        Expression::Assignment { span, .. } => *span,
        Expression::Sequence { span, .. } => *span,
        Expression::Parenthesized { span, .. } => *span,
        Expression::Function { span, .. } => *span,
        Expression::Other { span, .. } => *span,
    }
}

pub open spec fn spec_expression_span(e: Expression) -> Span {
    match e {
        Expression::Identifier(id) => id.span,
        Expression::StringLiteral { span, .. } => span,
        Expression::StaticMember { span, .. } => span,
        Expression::ComputedMember { span, .. } => span,
        Expression::Call { span, .. } => span,
        Expression::Import { span, .. } => span,
        Expression::Await { span, .. } => span,
        Expression::Assignment { span, .. } => span,
        Expression::Sequence { span, .. } => span,
        Expression::Parenthesized { span, .. } => span,
        Expression::Function { span, .. } => span,
        Expression::Other { span, .. } => span,
    }
}

/// The class symbol that `e` refers to when `e` is a name that resolves to
/// the class being declared, `class`.
pub open spec fn self_reference(sem: Semantic, class: Option<usize>, e: Expression) -> Option<usize> {
    match (e, class) {
        (Expression::Identifier(id), Some(c)) => if sem.resolved(id.reference_id) == Some(c) {
            Some(c)
        } else {
            None
        },
        _ => None,
    }
}

/// The class being declared inside a class named `id`, around which `outer`
/// is being declared.
pub open spec fn class_context(id: Option<BindingIdentifier>, outer: Option<usize>) -> Option<usize> {
    match id {
        Some(b) => Some(b.symbol_id),
        None => outer,
    }
}

/// The symbol that a function or named class declaration binds.
pub open spec fn declared_binding(s: Statement) -> Option<usize> {
    match s {
        Statement::FunctionDeclaration { id, .. } => Some(id.symbol_id),
        Statement::ClassDeclaration(class) => match class.id {
            Some(id) => Some(id.symbol_id),
            None => None,
        },
        _ => None,
    }
}

/// The module-level symbol that `e` reads, when `e` is a name.
pub open spec fn plain_root_reference(sem: Semantic, e: Expression) -> Option<usize> {
    match e {
        Expression::Identifier(id) => sem.root_symbol_of(id.reference_id),
        _ => None,
    }
}

/// The span of the request of a `require` of a string literal that stands
/// alone as a statement.
pub open spec fn standalone_require_request(sem: Semantic, s: Statement) -> Option<Span> {
    match s {
        Statement::Expression { expression: Expression::Call { callee, arguments, .. }, .. } =>
            if global_require_call(sem, *callee, arguments@) {
                match arguments@[0] {
                    Expression::StringLiteral { span, .. } => Some(span),
                    _ => None,
                }
            } else {
                None
            },
        _ => None,
    }
}

impl AstScanner {
    /// What a visit of a node keeps: the configuration, the context stacks and
    /// the committed statements are as they were, and what the scan collects
    /// only grows; a marker, once set, stays.
    pub open spec fn extends(self, old: AstScanner) -> bool {
        &&& self.grows(old)
        &&& self.visit_path@ == old.visit_path@
    }

    /// `extends`, but for the visit path.
    pub open spec fn grows(self, old: AstScanner) -> bool {
        &&& self.collects(old)
        &&& self.cur_class_decl == old.cur_class_decl
    }

    /// `grows`, but for the current class.
    pub open spec fn collects(self, old: AstScanner) -> bool {
        &&& self.semantic == old.semantic
        &&& self.file_path == old.file_path
        &&& self.source == old.source
        &&& self.format == old.format
        &&& self.scope_stack@ == old.scope_stack@
        &&& self.result.stmt_infos@ == old.result.stmt_infos@
        &&& self.result.hashbang_range == old.result.hashbang_range
        &&& self.current_stmt_info.index == old.current_stmt_info.index
        &&& self.current_stmt_info.has_side_effect == old.current_stmt_info.has_side_effect
        &&& prefix_of(old.result.import_records@, self.result.import_records@)
        &&& prefix_of(old.result.imports@, self.result.imports@)
        &&& prefix_of(old.result.named_imports@, self.result.named_imports@)
        &&& prefix_of(old.result.errors@, self.result.errors@)
        &&& prefix_of(old.result.warnings@, self.result.warnings@)
        &&& prefix_of(old.current_stmt_info.declared_symbols@, self.current_stmt_info.declared_symbols@)
        &&& prefix_of(old.current_stmt_info.referenced_symbols@, self.current_stmt_info.referenced_symbols@)
        &&& prefix_of(
            old.result.self_referenced_class_decl_symbol_ids@,
            self.result.self_referenced_class_decl_symbol_ids@,
        )
        &&& (old.result.has_eval ==> self.result.has_eval)
        &&& (old.cjs_module_ident is Some ==> self.cjs_module_ident == old.cjs_module_ident)
        &&& (old.cjs_exports_ident is Some ==> self.cjs_exports_ident == old.cjs_exports_ident)
    }

    /// The global `eval` flag is set exactly when `flag` holds or it was set
    /// before; no warning is added unless `flag` holds.
    pub open spec fn eval_effect(self, old: AstScanner, flag: bool) -> bool {
        &&& self.result.has_eval == (old.result.has_eval || flag)
        &&& !flag ==> self.result.warnings@ == old.result.warnings@
    }

    /// A CommonJS marker that was unset is set exactly when the flag for it
    /// holds.
    pub open spec fn marker_effect(self, old: AstScanner, module: bool, exports: bool) -> bool {
        &&& old.cjs_module_ident is None ==> (self.cjs_module_ident is Some <==> module)
        &&& old.cjs_exports_ident is None ==> (self.cjs_exports_ident is Some <==> exports)
    }

    /// No import record and no imports entry is added unless `flag` holds.
    pub open spec fn record_effect(self, old: AstScanner, flag: bool) -> bool {
        !flag ==> (self.result.import_records@ == old.result.import_records@ && self.result.imports@ == old.result.imports@)
    }

    /// A class symbol `c` is among the self-referencing classes exactly when it
    /// was before or `flag(c)` holds.
    pub open spec fn class_refs_effect(self, old: AstScanner, flag: spec_fn(usize) -> bool) -> bool {
        forall|c: usize| #[trigger] self.result.self_referenced_class_decl_symbol_ids@.contains(c)
            == (old.result.self_referenced_class_decl_symbol_ids@.contains(c) || flag(c))
    }

    /// Exactly `records` import records and `entries` imports entries are
    /// added.
    pub open spec fn count_effect(self, old: AstScanner, records: nat, entries: nat) -> bool {
        &&& self.result.import_records@.len() == old.result.import_records@.len() + records
        &&& self.result.imports@.len() == old.result.imports@.len() + entries
    }

    /// Exactly `n` errors are added.
    pub open spec fn error_count_effect(self, old: AstScanner, n: nat) -> bool {
        self.result.errors@.len() == old.result.errors@.len() + n
    }

    /// No error is added unless `flag` holds.
    pub open spec fn error_effect(self, old: AstScanner, flag: bool) -> bool {
        !flag ==> self.result.errors@ == old.result.errors@
    }

    /// The imported symbol and the property names of `object.property`, when
    /// it is a chain of static reads rooted at a named import and has a span.
    pub open spec fn member_path_of(self, object: Expression, property: String, span: Span) -> Option<(usize, Seq<String>)> {
        match static_chain(object, property) {
            Some((reference_id, props)) => match self.semantic.root_symbol_of(reference_id) {
                Some(symbol) => if self.spec_is_named_import(symbol) && !span.spec_is_unspanned() {
                    Some((symbol, props))
                } else {
                    None
                },
                None => None,
            },
            None => None,
        }
    }

    pub open spec fn spec_is_top_level(self) -> bool {
        forall|i: int| 0 <= i < self.scope_stack@.len() ==> !(#[trigger] self.scope_stack@[i] is Function)
    }

    pub open spec fn spec_is_named_import(self, symbol: usize) -> bool {
        exists|i: int| 0 <= i < self.result.named_imports@.len() && #[trigger] self.result.named_imports@[i].local_symbol == symbol
    }

    pub fn new(semantic: Semantic, file_path: String, source: String, format: Option<OutputFormat>) -> (r: AstScanner)
        ensures
            r.semantic == semantic,
            r.file_path == file_path,
            r.source == source,
            r.format == format,
            r.result.stmt_infos@.len() == 0,
            r.result.import_records@.len() == 0,
            r.result.imports@.len() == 0,
            r.result.named_imports@.len() == 0,
            r.result.self_referenced_class_decl_symbol_ids@.len() == 0,
            r.result.hashbang_range is None,
            r.result.errors@.len() == 0,
            r.result.warnings@.len() == 0,
            !r.result.has_eval,
            r.visit_path@.len() == 0,
            r.scope_stack@.len() == 0,
            r.cur_class_decl is None,
            r.cjs_module_ident is None,
            r.cjs_exports_ident is None,
    {
        AstScanner {
            semantic,
            file_path,
            source,
            format,
            result: ScanResult::new(),
            current_stmt_info: StmtInfo::new(0, false),
            visit_path: Vec::new(),
            scope_stack: Vec::new(),
            cur_class_decl: None,
            cjs_module_ident: None,
            cjs_exports_ident: None,
        }
    }

    /// Whether no function encloses the node being visited.
    pub fn is_top_level(&self) -> (r: bool)
        ensures
            r == self.spec_is_top_level(),
    {
        let mut i: usize = 0;
        while i < self.scope_stack.len()
            invariant
                i <= self.scope_stack@.len(),
                forall|j: int| 0 <= j < i ==> !(#[trigger] self.scope_stack@[j] is Function),
            decreases self.scope_stack@.len() - i,
        {
            if let ScopeKind::Function = self.scope_stack[i] {
                return false;
            }
            i = i + 1;
        }
        true
    }

    pub fn is_named_import(&self, symbol: usize) -> (r: bool)
        ensures
            r == self.spec_is_named_import(symbol),
    {
        let mut i: usize = 0;
        while i < self.result.named_imports.len()
            invariant
                i <= self.result.named_imports@.len(),
                forall|j: int| 0 <= j < i ==> (#[trigger] self.result.named_imports@[j]).local_symbol != symbol,
            decreases self.result.named_imports@.len() - i,
        {
            if self.result.named_imports[i].local_symbol == symbol {
                return true;
            }
            i = i + 1;
        }
        false
    }

    fn add_import_record(&mut self, request: &String, kind: ImportKind, source_span: Span, meta: ImportRecordMeta) -> (id: usize)
        ensures
            final(self).eval_effect(*old(self), false),
            final(self).class_refs_effect(*old(self), |c: usize| false),
            final(self).error_effect(*old(self), false),
            final(self).error_count_effect(*old(self), 0),
            final(self).marker_effect(*old(self), false, false),
            final(self).result.import_records@ == old(self).result.import_records@.push(
                ImportRecord { request: *request, kind, source_span, meta },
            ),
            id == old(self).result.import_records@.len(),
            final(self).extends(*old(self)),
            final(self).result.imports@ == old(self).result.imports@,
            final(self).result.named_imports@ == old(self).result.named_imports@,
    {
        let id = self.result.import_records.len();
        self.result.import_records.push(ImportRecord { request: request.clone(), kind, source_span, meta });
        proof {
            assert(prefix_of(old(self).result.import_records@, self.result.import_records@));
        }
        id
    }

    fn push_error(&mut self, kind: DiagnosticKind, span: Span)
        ensures
            final(self).eval_effect(*old(self), false),
            final(self).count_effect(*old(self), 0, 0),
            final(self).class_refs_effect(*old(self), |c: usize| false),
            final(self).record_effect(*old(self), false),
            final(self).marker_effect(*old(self), false, false),
            final(self).result.errors@ == old(self).result.errors@.push(
                Diagnostic { kind, file_path: old(self).file_path, source: old(self).source, span },
            ),
            final(self).extends(*old(self)),
    {
        let file_path = self.file_path.clone();
        let source = self.source.clone();
        self.result.errors.push(Diagnostic { kind, file_path, source, span });
    }

    /// Visits the operands of the expression `parent`, in order.
    fn visit_expressions(&mut self, es: &Vec<Expression>, Ghost(parent): Ghost<Expression>)
        requires
            forall|i: int| 0 <= i < es@.len() ==> decreases_to!(parent => #[trigger] es@[i]),
        ensures
            final(self).eval_effect(*old(self), any_calls_eval(old(self).semantic, es@, es@.len() as int)),
            final(self).count_effect(*old(self), records_in(old(self).semantic, es@, es@.len() as int, false), records_in(old(self).semantic, es@, es@.len() as int, true)),
            final(self).class_refs_effect(*old(self), |c: usize| any_refers_to_class(old(self).semantic, old(self).cur_class_decl, c, es@, es@.len() as int)),
            final(self).record_effect(*old(self), any_adds_record(old(self).semantic, es@, es@.len() as int)),
            final(self).error_effect(*old(self), any_adds_error(old(self).semantic, old(self).format, old(self).spec_is_top_level(), es@, es@.len() as int)),
            final(self).error_count_effect(*old(self), errors_in(old(self).semantic, old(self).format, old(self).spec_is_top_level(), es@, es@.len() as int)),
            final(self).marker_effect(*old(self), any_sets_marker(old(self).semantic, true, es@, es@.len() as int), any_sets_marker(old(self).semantic, false, es@, es@.len() as int)),
            final(self).extends(*old(self)),
        decreases parent, 0nat,
    {
        let mut i: usize = 0;
        while i < es.len()
            invariant
                i <= es@.len(),
                forall|j: int| 0 <= j < es@.len() ==> decreases_to!(parent => #[trigger] es@[j]),
                self.extends(*old(self)),
                self.eval_effect(*old(self), any_calls_eval(old(self).semantic, es@, i as int)),
                self.count_effect(*old(self), records_in(old(self).semantic, es@, i as int, false), records_in(old(self).semantic, es@, i as int, true)),
                self.class_refs_effect(*old(self), |c: usize| any_refers_to_class(old(self).semantic, old(self).cur_class_decl, c, es@, i as int)),
                self.record_effect(*old(self), any_adds_record(old(self).semantic, es@, i as int)),
                self.error_effect(*old(self), any_adds_error(old(self).semantic, old(self).format, old(self).spec_is_top_level(), es@, i as int)),
                self.error_count_effect(*old(self), errors_in(old(self).semantic, old(self).format, old(self).spec_is_top_level(), es@, i as int)),
                self.marker_effect(*old(self), any_sets_marker(old(self).semantic, true, es@, i as int), any_sets_marker(old(self).semantic, false, es@, i as int)),
            decreases es@.len() - i,
        {
            proof {
                lemma_any_calls_eval_step(old(self).semantic, es@, i as int);
                assert forall|c: usize|
                    #[trigger] any_refers_to_class(old(self).semantic, old(self).cur_class_decl, c, es@, i as int + 1)
                        == (any_refers_to_class(old(self).semantic, old(self).cur_class_decl, c, es@, i as int) || refers_to_class(old(self).semantic, old(self).cur_class_decl, c, es@[i as int]))
                by {
                    lemma_any_refers_to_class_step(old(self).semantic, old(self).cur_class_decl, c, es@, i as int);
                }
                lemma_any_adds_record_step(old(self).semantic, es@, i as int);
                lemma_any_adds_error_step(old(self).semantic, old(self).format, old(self).spec_is_top_level(), es@, i as int);
                lemma_any_sets_marker_step(old(self).semantic, true, es@, i as int);
                lemma_any_sets_marker_step(old(self).semantic, false, es@, i as int);
            }
            self.visit_expression(&es[i]);
            i = i + 1;
        }
    }

    /// Visits a list of statements (a body or a block), in order.
    fn visit_statements(&mut self, ss: &Vec<Statement>)
        ensures
            final(self).eval_effect(*old(self), any_stmt_calls_eval(old(self).semantic, ss@, ss@.len() as int)),
            final(self).count_effect(*old(self), stmt_records_in(old(self).semantic, ss@, ss@.len() as int, false), stmt_records_in(old(self).semantic, ss@, ss@.len() as int, true)),
            final(self).class_refs_effect(*old(self), |c: usize| any_stmt_refers_to_class(old(self).semantic, old(self).cur_class_decl, c, ss@, ss@.len() as int)),
            final(self).record_effect(*old(self), any_stmt_adds_record(old(self).semantic, ss@, ss@.len() as int)),
            final(self).error_effect(*old(self), any_stmt_adds_error(old(self).semantic, old(self).format, old(self).spec_is_top_level(), ss@, ss@.len() as int)),
            final(self).error_count_effect(*old(self), stmt_errors_in(old(self).semantic, old(self).format, old(self).spec_is_top_level(), ss@, ss@.len() as int)),
            final(self).marker_effect(*old(self), any_stmt_sets_marker(old(self).semantic, true, ss@, ss@.len() as int), any_stmt_sets_marker(old(self).semantic, false, ss@, ss@.len() as int)),
            final(self).extends(*old(self)),
        decreases ss@, 0nat,
    {
        let mut i: usize = 0;
        while i < ss.len()
            invariant
                i <= ss@.len(),
                self.extends(*old(self)),
                self.eval_effect(*old(self), any_stmt_calls_eval(old(self).semantic, ss@, i as int)),
                self.count_effect(*old(self), stmt_records_in(old(self).semantic, ss@, i as int, false), stmt_records_in(old(self).semantic, ss@, i as int, true)),
                self.class_refs_effect(*old(self), |c: usize| any_stmt_refers_to_class(old(self).semantic, old(self).cur_class_decl, c, ss@, i as int)),
                self.record_effect(*old(self), any_stmt_adds_record(old(self).semantic, ss@, i as int)),
                self.error_effect(*old(self), any_stmt_adds_error(old(self).semantic, old(self).format, old(self).spec_is_top_level(), ss@, i as int)),
                self.error_count_effect(*old(self), stmt_errors_in(old(self).semantic, old(self).format, old(self).spec_is_top_level(), ss@, i as int)),
                self.marker_effect(*old(self), any_stmt_sets_marker(old(self).semantic, true, ss@, i as int), any_stmt_sets_marker(old(self).semantic, false, ss@, i as int)),
            decreases ss@.len() - i,
        {
            proof {
                lemma_any_stmt_calls_eval_step(old(self).semantic, ss@, i as int);
                assert forall|c: usize|
                    #[trigger] any_stmt_refers_to_class(old(self).semantic, old(self).cur_class_decl, c, ss@, i as int + 1)
                        == (any_stmt_refers_to_class(old(self).semantic, old(self).cur_class_decl, c, ss@, i as int) || stmt_refers_to_class(old(self).semantic, old(self).cur_class_decl, c, ss@[i as int]))
                by {
                    lemma_any_stmt_refers_to_class_step(old(self).semantic, old(self).cur_class_decl, c, ss@, i as int);
                }
                lemma_any_stmt_adds_record_step(old(self).semantic, ss@, i as int);
                lemma_any_stmt_adds_error_step(old(self).semantic, old(self).format, old(self).spec_is_top_level(), ss@, i as int);
                lemma_any_stmt_sets_marker_step(old(self).semantic, true, ss@, i as int);
                lemma_any_stmt_sets_marker_step(old(self).semantic, false, ss@, i as int);
            }
            self.visit_statement(&ss[i]);
            i = i + 1;
        }
    }

    fn visit_bindings(&mut self, bs: &Vec<BindingIdentifier>)
        ensures
            final(self).eval_effect(*old(self), false),
            final(self).count_effect(*old(self), 0, 0),
            final(self).class_refs_effect(*old(self), |c: usize| false),
            final(self).record_effect(*old(self), false),
            final(self).error_effect(*old(self), false),
            final(self).error_count_effect(*old(self), 0),
            final(self).marker_effect(*old(self), false, false),
            final(self).extends(*old(self)),
    {
        let mut i: usize = 0;
        while i < bs.len()
            invariant
                i <= bs@.len(),
                self.extends(*old(self)),
                self.eval_effect(*old(self), false),
                self.count_effect(*old(self), 0, 0),
                self.class_refs_effect(*old(self), |c: usize| false),
                self.record_effect(*old(self), false),
                self.error_effect(*old(self), false),
                self.error_count_effect(*old(self), 0),
                self.marker_effect(*old(self), false, false),
            decreases bs@.len() - i,
        {
            self.visit_binding_identifier(&bs[i]);
            i = i + 1;
        }
    }

    /// Visits an expression and everything under it.
    pub fn visit_expression(&mut self, e: &Expression)
        ensures
            plain_root_reference(old(self).semantic, *e) matches Some(sym) ==> {
                &&& final(self).current_stmt_info.referenced_symbols@.len() > old(self).current_stmt_info.referenced_symbols@.len()
                &&& final(self).current_stmt_info.referenced_symbols@[old(self).current_stmt_info.referenced_symbols@.len() as int] == SymbolRef::Symbol(sym)
            },
            final(self).eval_effect(*old(self), calls_eval(old(self).semantic, *e)),
            final(self).count_effect(*old(self), record_count(old(self).semantic, *e, false), record_count(old(self).semantic, *e, true)),
            final(self).class_refs_effect(*old(self), |c: usize| refers_to_class(old(self).semantic, old(self).cur_class_decl, c, *e)),
            final(self).record_effect(*old(self), adds_record(old(self).semantic, *e)),
            final(self).error_effect(*old(self), adds_error(old(self).semantic, old(self).format, old(self).spec_is_top_level(), *e)),
            final(self).error_count_effect(*old(self), error_count(old(self).semantic, old(self).format, old(self).spec_is_top_level(), *e)),
            final(self).marker_effect(*old(self), sets_marker(old(self).semantic, true, *e), sets_marker(old(self).semantic, false, *e)),
            final(self).extends(*old(self)),
            self_reference(old(self).semantic, old(self).cur_class_decl, *e) matches Some(c)
                ==> final(self).result.self_referenced_class_decl_symbol_ids@.contains(c),
            e is Call && global_require_call(old(self).semantic, *e->callee, e->arguments@) ==> match e->arguments@[0] {
                Expression::StringLiteral { value, span: request } =>
                    final(self).result.import_records@[old(self).result.import_records@.len() as int] == (ImportRecord {
                        request: value,
                        kind: ImportKind::Require,
                        source_span: request,
                        meta: ImportRecordMeta {
                            is_unspanned_import: request.spec_is_empty(),
                            is_require_unused: !request.spec_is_empty() && require_unused(old(self).visit_path@, e->Call_span),
                        },
                    }),
                _ => true,
            },
        decreases e, 2nat,
    {
        match e {
            Expression::Identifier(id) => self.visit_identifier_reference(id),
            Expression::StringLiteral { .. } => {},
            Expression::StaticMember { .. } => self.visit_member_expression(e),
            Expression::ComputedMember { object, property, .. } => {
                self.visit_path.push(Ancestor::Other);
                self.visit_expression(object);
                self.visit_expression(property);
                self.visit_path.pop();
                proof { assert(self.visit_path@ =~= old(self).visit_path@); }
            },
            Expression::Call { .. } => self.visit_call_expression(e),
            Expression::Import { .. } => self.visit_import_expression(e),
            Expression::Await { .. } => self.visit_await_expression(e),
            Expression::Assignment { .. } => self.visit_assignment_expression(e),
            Expression::Sequence { expressions, .. } => {
                let last = if expressions.len() > 0 {
                    expression_span(&expressions[expressions.len() - 1])
                } else {
                    Span::new(0, 0)
                };
                self.visit_path.push(Ancestor::Sequence(last));
                self.visit_expressions(expressions, Ghost(*e));
                self.visit_path.pop();
                proof { assert(self.visit_path@ =~= old(self).visit_path@); }
            },
            Expression::Parenthesized { expression, .. } => {
                self.visit_path.push(Ancestor::Parenthesized);
                self.visit_expression(expression);
                self.visit_path.pop();
                proof { assert(self.visit_path@ =~= old(self).visit_path@); }
            },
            Expression::Function { params, body, .. } => {
                self.visit_path.push(Ancestor::Other);
                self.scope_stack.push(ScopeKind::Function);
                self.visit_bindings(params);
                self.visit_statements(body);
                self.scope_stack.pop();
                self.visit_path.pop();
                proof {
                    assert(self.visit_path@ =~= old(self).visit_path@);
                    assert(self.scope_stack@ =~= old(self).scope_stack@);
                }
            },
            Expression::Other { operands, .. } => {
                self.visit_path.push(Ancestor::Other);
                self.visit_expressions(operands, Ghost(*e));
                self.visit_path.pop();
                proof { assert(self.visit_path@ =~= old(self).visit_path@); }
            },
        }
    }

    /// Visits a statement and everything under it. The value of a `require`
    /// call that stands alone as a statement is unused.
    #[verifier::rlimit(60)]
    pub fn visit_statement(&mut self, s: &Statement)
        ensures
            declared_binding(*s) matches Some(b) ==> (old(self).semantic.spec_is_root_symbol(b) ==> {
                &&& final(self).current_stmt_info.declared_symbols@.len() > old(self).current_stmt_info.declared_symbols@.len()
                &&& final(self).current_stmt_info.declared_symbols@[old(self).current_stmt_info.declared_symbols@.len() as int] == b
            }),
            final(self).eval_effect(*old(self), stmt_calls_eval(old(self).semantic, *s)),
            final(self).count_effect(*old(self), stmt_record_count(old(self).semantic, *s, false), stmt_record_count(old(self).semantic, *s, true)),
            final(self).class_refs_effect(*old(self), |c: usize| stmt_refers_to_class(old(self).semantic, old(self).cur_class_decl, c, *s)),
            final(self).record_effect(*old(self), stmt_adds_record(old(self).semantic, *s)),
            final(self).error_effect(*old(self), stmt_adds_error(old(self).semantic, old(self).format, old(self).spec_is_top_level(), *s)),
            final(self).error_count_effect(*old(self), stmt_error_count(old(self).semantic, old(self).format, old(self).spec_is_top_level(), *s)),
            final(self).marker_effect(*old(self), stmt_sets_marker(old(self).semantic, true, *s), stmt_sets_marker(old(self).semantic, false, *s)),
            final(self).extends(*old(self)),
            *s matches Statement::Import { specifiers, source, source_span, .. } ==> {
                &&& final(self).result.import_records@ == old(self).result.import_records@.push(ImportRecord {
                    request: source,
                    kind: ImportKind::StaticImport,
                    source_span,
                    meta: ImportRecordMeta { is_unspanned_import: false, is_require_unused: false },
                })
                &&& final(self).result.named_imports@.len() == old(self).result.named_imports@.len() + specifiers@.len()
                &&& forall|i: int| 0 <= i < specifiers@.len() ==> (#[trigger] final(self).result.named_imports@[old(self).result.named_imports@.len() + i]) == (NamedImport {
                    local_symbol: specifiers@[i].local.symbol_id,
                    imported: specifiers@[i].imported,
                    record: old(self).result.import_records@.len() as usize,
                })
                &&& forall|i: int| 0 <= i < specifiers@.len() && old(self).semantic.spec_is_root_symbol(#[trigger] specifiers@[i].local.symbol_id)
                    ==> final(self).current_stmt_info.declared_symbols@.contains(specifiers@[i].local.symbol_id)
            },
            standalone_require_request(old(self).semantic, *s) matches Some(request) ==> {
                &&& final(self).result.import_records@[old(self).result.import_records@.len() as int].kind == ImportKind::Require
                &&& final(self).result.import_records@[old(self).result.import_records@.len() as int].meta.is_require_unused
                    == !request.spec_is_empty()
            },
        decreases s, 2nat,
    {
        match s {
            Statement::Expression { expression, .. } => {
                self.visit_path.push(Ancestor::ExpressionStatement);
                let ghost path = self.visit_path@;
                self.visit_expression(expression);
                self.visit_path.pop();
                proof {
                    assert(self.visit_path@ =~= old(self).visit_path@);
                    assert(path[path.len() - 1] == Ancestor::ExpressionStatement);
                    if let Expression::Call { span, .. } = expression {
                        assert(require_unused(path, *span));
                    }
                }
            },
            Statement::VariableDeclaration { declarations, .. } => {
                self.visit_path.push(Ancestor::Other);
                let mut i: usize = 0;
                while i < declarations.len()
                    invariant
                        i <= declarations@.len(),
                        *s matches Statement::VariableDeclaration { declarations: d, .. } && d == *declarations,
                        self.grows(*old(self)),
                        self.eval_effect(*old(self), any_init_hits(old(self).semantic, 0, declarations@, i as int)),
                        self.count_effect(*old(self), init_records_in(old(self).semantic, declarations@, i as int, false), init_records_in(old(self).semantic, declarations@, i as int, true)),
                        self.class_refs_effect(*old(self), |c: usize| any_init_refers_to_class(old(self).semantic, old(self).cur_class_decl, c, declarations@, i as int)),
                        self.record_effect(*old(self), any_init_adds_record(old(self).semantic, declarations@, i as int)),
                        self.error_effect(*old(self), any_init_adds_error(old(self).semantic, old(self).format, old(self).spec_is_top_level(), declarations@, i as int)),
                        self.error_count_effect(*old(self), init_errors_in(old(self).semantic, old(self).format, old(self).spec_is_top_level(), declarations@, i as int)),
                        self.marker_effect(
                            *old(self),
                            any_init_hits(old(self).semantic, 1, declarations@, i as int),
                            any_init_hits(old(self).semantic, 2, declarations@, i as int),
                        ),
                        self.visit_path@ == old(self).visit_path@.push(Ancestor::Other),
                    decreases declarations@.len() - i,
                {
                    self.visit_binding_identifier(&declarations[i].id);
                    if let Some(init) = &declarations[i].init {
                        self.visit_expression(init);
                    }
                    proof {
                        lemma_any_init_hits_step(old(self).semantic, 0, declarations@, i as int);
                        assert forall|c: usize|
                            #[trigger] any_init_refers_to_class(old(self).semantic, old(self).cur_class_decl, c, declarations@, i as int + 1)
                                == (any_init_refers_to_class(old(self).semantic, old(self).cur_class_decl, c, declarations@, i as int) || match declarations@[i as int].init { Some(x) => refers_to_class(old(self).semantic, old(self).cur_class_decl, c, x), None => false })
                        by {
                            lemma_any_init_refers_to_class_step(old(self).semantic, old(self).cur_class_decl, c, declarations@, i as int);
                        }
                        lemma_any_init_adds_record_step(old(self).semantic, declarations@, i as int);
                        lemma_any_init_adds_error_step(old(self).semantic, old(self).format, old(self).spec_is_top_level(), declarations@, i as int);
                        lemma_any_init_hits_step(old(self).semantic, 1, declarations@, i as int);
                        lemma_any_init_hits_step(old(self).semantic, 2, declarations@, i as int);
                    }
                    i = i + 1;
                }
                self.visit_path.pop();
                proof {
                    assert(self.visit_path@ =~= old(self).visit_path@);
                    assert(any_init_hits(old(self).semantic, 0, declarations@, declarations@.len() as int) == stmt_calls_eval(old(self).semantic, *s));
                    assert(any_init_hits(old(self).semantic, 1, declarations@, declarations@.len() as int) == stmt_sets_marker(old(self).semantic, true, *s));
                    assert(any_init_hits(old(self).semantic, 2, declarations@, declarations@.len() as int) == stmt_sets_marker(old(self).semantic, false, *s));
                }
            },
            Statement::FunctionDeclaration { id, params, body, .. } => {
                self.visit_path.push(Ancestor::Other);
                self.visit_binding_identifier(id);
                let ghost after_id = self.current_stmt_info.declared_symbols@;
                self.scope_stack.push(ScopeKind::Function);
                self.visit_bindings(params);
                self.visit_statements(body);
                self.scope_stack.pop();
                self.visit_path.pop();
                proof {
                    let n = old(self).current_stmt_info.declared_symbols@.len() as int;
                    if old(self).semantic.spec_is_root_symbol(id.symbol_id) {
                        assert(after_id[n] == id.symbol_id);
                        assert(self.current_stmt_info.declared_symbols@[n] == after_id[n]);
                    }
                }
                proof {
                    assert(self.visit_path@ =~= old(self).visit_path@);
                    assert(self.scope_stack@ =~= old(self).scope_stack@);
                }
            },
            Statement::ClassDeclaration(class) => {
                self.visit_path.push(Ancestor::Other);
                self.scan_class_declaration(class);
                self.visit_path.pop();
                proof { assert(self.visit_path@ =~= old(self).visit_path@); }
            },
            Statement::Import { .. } => self.scan_module_decl(s),
            Statement::ForOf { .. } => self.visit_for_of_statement(s),
            Statement::Other { expressions, body, .. } => {
                self.visit_path.push(Ancestor::Other);
                let mut i: usize = 0;
                while i < expressions.len()
                    invariant
                        i <= expressions@.len(),
                        *s matches Statement::Other { expressions: x, .. } && x == *expressions,
                        self.grows(*old(self)),
                        self.eval_effect(*old(self), any_calls_eval(old(self).semantic, expressions@, i as int)),
                        self.count_effect(*old(self), records_in(old(self).semantic, expressions@, i as int, false), records_in(old(self).semantic, expressions@, i as int, true)),
                        self.class_refs_effect(*old(self), |c: usize| any_refers_to_class(old(self).semantic, old(self).cur_class_decl, c, expressions@, i as int)),
                        self.record_effect(*old(self), any_adds_record(old(self).semantic, expressions@, i as int)),
                        self.error_effect(*old(self), any_adds_error(old(self).semantic, old(self).format, old(self).spec_is_top_level(), expressions@, i as int)),
                        self.error_count_effect(*old(self), errors_in(old(self).semantic, old(self).format, old(self).spec_is_top_level(), expressions@, i as int)),
                        self.marker_effect(*old(self), any_sets_marker(old(self).semantic, true, expressions@, i as int), any_sets_marker(old(self).semantic, false, expressions@, i as int)),
                        self.visit_path@ == old(self).visit_path@.push(Ancestor::Other),
                    decreases expressions@.len() - i,
                {
                    proof {
                        lemma_any_calls_eval_step(old(self).semantic, expressions@, i as int);
                        assert forall|c: usize|
                            #[trigger] any_refers_to_class(old(self).semantic, old(self).cur_class_decl, c, expressions@, i as int + 1)
                                == (any_refers_to_class(old(self).semantic, old(self).cur_class_decl, c, expressions@, i as int) || refers_to_class(old(self).semantic, old(self).cur_class_decl, c, expressions@[i as int]))
                        by {
                            lemma_any_refers_to_class_step(old(self).semantic, old(self).cur_class_decl, c, expressions@, i as int);
                        }
                        lemma_any_adds_record_step(old(self).semantic, expressions@, i as int);
                        lemma_any_adds_error_step(old(self).semantic, old(self).format, old(self).spec_is_top_level(), expressions@, i as int);
                        lemma_any_sets_marker_step(old(self).semantic, true, expressions@, i as int);
                        lemma_any_sets_marker_step(old(self).semantic, false, expressions@, i as int);
                    }
                    self.visit_expression(&expressions[i]);
                    i = i + 1;
                }
                self.scope_stack.push(ScopeKind::Block);
                self.visit_statements(body);
                self.scope_stack.pop();
                self.visit_path.pop();
                proof {
                    assert(self.visit_path@ =~= old(self).visit_path@);
                    assert(self.scope_stack@ =~= old(self).scope_stack@);
                }
            },
            Statement::Block { body, .. } => {
                self.visit_path.push(Ancestor::Other);
                self.scope_stack.push(ScopeKind::Block);
                self.visit_statements(body);
                self.scope_stack.pop();
                self.visit_path.pop();
                proof {
                    assert(self.visit_path@ =~= old(self).visit_path@);
                    assert(self.scope_stack@ =~= old(self).scope_stack@);
                }
            },
        }
    }

    /// A chain of static property reads rooted at an imported binding, with a
    /// span of its own, is recorded whole as a read of that binding along its
    /// path, and not visited further; any other is visited as usual.
    fn visit_static_member(&mut self, object: &Box<Expression>, property: &String, span: Span)
        ensures
            old(self).member_path_of(**object, *property, span) is None ==> (plain_root_reference(old(self).semantic, **object) matches Some(sym) ==> {
                &&& final(self).current_stmt_info.referenced_symbols@.len() > old(self).current_stmt_info.referenced_symbols@.len()
                &&& final(self).current_stmt_info.referenced_symbols@[old(self).current_stmt_info.referenced_symbols@.len() as int] == SymbolRef::Symbol(sym)
            }),
            final(self).eval_effect(*old(self), calls_eval(old(self).semantic, **object)),
            final(self).count_effect(*old(self), record_count(old(self).semantic, **object, false), record_count(old(self).semantic, **object, true)),
            final(self).class_refs_effect(*old(self), |c: usize| refers_to_class(old(self).semantic, old(self).cur_class_decl, c, **object)),
            final(self).record_effect(*old(self), adds_record(old(self).semantic, **object)),
            final(self).error_effect(*old(self), adds_error(old(self).semantic, old(self).format, old(self).spec_is_top_level(), **object)),
            final(self).error_count_effect(*old(self), error_count(old(self).semantic, old(self).format, old(self).spec_is_top_level(), **object)),
            final(self).marker_effect(*old(self), sets_marker(old(self).semantic, true, **object), sets_marker(old(self).semantic, false, **object)),
            final(self).extends(*old(self)),
            old(self).member_path_of(**object, *property, span) matches Some((symbol, props)) ==> {
                &&& *final(self) == (AstScanner {
                    current_stmt_info: StmtInfo { referenced_symbols: final(self).current_stmt_info.referenced_symbols, ..old(self).current_stmt_info },
                    result: ScanResult {
                        self_referenced_class_decl_symbol_ids: final(self).result.self_referenced_class_decl_symbol_ids,
                        ..old(self).result
                    },
                    ..*old(self)
                })
                &&& final(self).current_stmt_info.referenced_symbols@.len() == old(self).current_stmt_info.referenced_symbols@.len() + 1
                &&& final(self).current_stmt_info.referenced_symbols@.drop_last() == old(self).current_stmt_info.referenced_symbols@
                &&& final(self).current_stmt_info.referenced_symbols@.last() matches SymbolRef::MemberExpr { symbol: s, props: p, span: sp }
                &&& s == symbol && p@ == props && sp == span
            },
        decreases object, 3nat,
    {
        if let Some((reference_id, props)) = member_chain(object, property) {
            if let Some(symbol) = self.semantic.resolve_to_root_symbol(reference_id) {
                if self.is_named_import(symbol) && !span.is_unspanned() {
                    self.current_stmt_info.referenced_symbols.push(SymbolRef::MemberExpr { symbol, props, span });
                    let ghost pushed = *self;
                    self.note_self_reference(reference_id);
                    proof {
                        assert(self.current_stmt_info.referenced_symbols@.drop_last() =~= old(self).current_stmt_info.referenced_symbols@);
                        lemma_static_chain_has_no_effect(old(self).semantic, **object, *property);
                        lemma_static_chain_refers_to_root(old(self).semantic, old(self).cur_class_decl, **object, *property);
                        assert(self.current_stmt_info.referenced_symbols@ == pushed.current_stmt_info.referenced_symbols@);
                    }
                    return;
                }
            }
        }
        self.visit_path.push(Ancestor::Other);
        self.visit_expression(object);
        self.visit_path.pop();
        proof { assert(self.visit_path@ =~= old(self).visit_path@); }
    }

    pub fn visit_member_expression(&mut self, e: &Expression)
        requires
            e is StaticMember,
        ensures
            old(self).member_path_of(*e->StaticMember_object, e->StaticMember_property, e->StaticMember_span) is None
                ==> (plain_root_reference(old(self).semantic, *e->StaticMember_object) matches Some(sym) ==> {
                &&& final(self).current_stmt_info.referenced_symbols@.len() > old(self).current_stmt_info.referenced_symbols@.len()
                &&& final(self).current_stmt_info.referenced_symbols@[old(self).current_stmt_info.referenced_symbols@.len() as int] == SymbolRef::Symbol(sym)
            }),
            final(self).eval_effect(*old(self), calls_eval(old(self).semantic, *e)),
            final(self).count_effect(*old(self), record_count(old(self).semantic, *e, false), record_count(old(self).semantic, *e, true)),
            final(self).class_refs_effect(*old(self), |c: usize| refers_to_class(old(self).semantic, old(self).cur_class_decl, c, *e)),
            final(self).record_effect(*old(self), adds_record(old(self).semantic, *e)),
            final(self).error_effect(*old(self), adds_error(old(self).semantic, old(self).format, old(self).spec_is_top_level(), *e)),
            final(self).error_count_effect(*old(self), error_count(old(self).semantic, old(self).format, old(self).spec_is_top_level(), *e)),
            final(self).marker_effect(*old(self), sets_marker(old(self).semantic, true, *e), sets_marker(old(self).semantic, false, *e)),
            final(self).extends(*old(self)),
            old(self).member_path_of(*e->StaticMember_object, e->StaticMember_property, e->StaticMember_span) matches Some((symbol, props)) ==> {
                &&& final(self).current_stmt_info.referenced_symbols@ == old(self).current_stmt_info.referenced_symbols@.push(
                    final(self).current_stmt_info.referenced_symbols@.last(),
                )
                &&& final(self).current_stmt_info.referenced_symbols@.last() matches SymbolRef::MemberExpr { symbol: s, props: p, span: sp }
                &&& s == symbol && p@ == props && sp == e->StaticMember_span
                &&& final(self).result == (ScanResult {
                    self_referenced_class_decl_symbol_ids: final(self).result.self_referenced_class_decl_symbol_ids,
                    ..old(self).result
                })
            },
        decreases e, 1nat,
    {
        if let Expression::StaticMember { object, property, span } = e {
            self.visit_static_member(object, property, *span);
        }
    }

    /// Reports an assignment to a `const` binding.
    fn try_diagnostic_forbid_const_assign(&mut self, id: &IdentifierReference)
        ensures
            final(self).eval_effect(*old(self), false),
            final(self).count_effect(*old(self), 0, 0),
            final(self).class_refs_effect(*old(self), |c: usize| false),
            final(self).record_effect(*old(self), false),
            final(self).marker_effect(*old(self), false, false),
            final(self).extends(*old(self)),
            final(self).result.errors@ == match old(self).semantic.resolved(id.reference_id) {
                Some(s) => if old(self).semantic.spec_is_const_symbol(s) {
                    old(self).result.errors@.push(
                        Diagnostic { kind: DiagnosticKind::ForbidConstAssign(id.name), file_path: old(self).file_path, source: old(self).source, span: id.span },
                    )
                } else {
                    old(self).result.errors@
                },
                None => old(self).result.errors@,
            },
    {
        if let Some(symbol) = self.semantic.resolve(id.reference_id) {
            if self.semantic.is_const_symbol(symbol) {
                self.push_error(DiagnosticKind::ForbidConstAssign(id.name.clone()), id.span);
            }
        }
    }

    /// Checks an assignment for a `const` target and for the CommonJS
    /// markers, then visits it.
    pub fn visit_assignment_expression(&mut self, e: &Expression)
        requires
            e is Assignment,
        ensures
            final(self).eval_effect(*old(self), calls_eval(old(self).semantic, *e)),
            final(self).count_effect(*old(self), record_count(old(self).semantic, *e, false), record_count(old(self).semantic, *e, true)),
            final(self).class_refs_effect(*old(self), |c: usize| refers_to_class(old(self).semantic, old(self).cur_class_decl, c, *e)),
            final(self).record_effect(*old(self), adds_record(old(self).semantic, *e)),
            final(self).error_effect(*old(self), adds_error(old(self).semantic, old(self).format, old(self).spec_is_top_level(), *e)),
            final(self).error_count_effect(*old(self), error_count(old(self).semantic, old(self).format, old(self).spec_is_top_level(), *e)),
            final(self).marker_effect(*old(self), sets_marker(old(self).semantic, true, *e), sets_marker(old(self).semantic, false, *e)),
            final(self).extends(*old(self)),
            ({
                let (module, exports) = cjs_markers(old(self).semantic, e->left);
                &&& (old(self).cjs_module_ident is None && module is Some) ==> final(self).cjs_module_ident == module
                &&& (old(self).cjs_exports_ident is None && exports is Some) ==> final(self).cjs_exports_ident == exports
            }),
            e->left matches AssignmentTarget::Identifier(id) ==> match old(self).semantic.resolved(id.reference_id) {
                Some(s) => old(self).semantic.spec_is_const_symbol(s) ==> final(self).result.errors@[old(self).result.errors@.len() as int] == (Diagnostic {
                    kind: DiagnosticKind::ForbidConstAssign(id.name),
                    file_path: old(self).file_path,
                source: old(self).source,
                    span: id.span,
                }),
                None => true,
            },
        decreases e, 1nat,
    {
        if let Expression::Assignment { left, right, .. } = e {
            match left {
                AssignmentTarget::Identifier(id) => self.try_diagnostic_forbid_const_assign(id),
                _ => {
                    let (module, exports) = cjs_markers_of(&self.semantic, left);
                    if self.cjs_module_ident.is_none() {
                        self.cjs_module_ident = module;
                    }
                    if self.cjs_exports_ident.is_none() {
                        self.cjs_exports_ident = exports;
                    }
                },
            }
            self.visit_path.push(Ancestor::Other);
            match left {
                AssignmentTarget::Identifier(id) => self.visit_identifier_reference(id),
                AssignmentTarget::StaticMember { object, property, span } => self.visit_static_member(object, property, *span),
                AssignmentTarget::Other(target) => self.visit_expression(target),
            }
            self.visit_expression(right);
            self.visit_path.pop();
            proof { assert(self.visit_path@ =~= old(self).visit_path@); }
        }
    }

    /// Checks a call for the global `eval` and for `require` of a literal,
    /// then visits it.
    pub fn visit_call_expression(&mut self, e: &Expression)
        requires
            e is Call,
        ensures
            global_require_call(old(self).semantic, *e->callee, e->arguments@) && !adds_record(old(self).semantic, *e->callee)
                && !any_adds_record(old(self).semantic, e->arguments@, e->arguments@.len() as int) ==> match e->arguments@[0] {
                Expression::StringLiteral { value, span: request } => {
                    &&& final(self).result.import_records@.len() == old(self).result.import_records@.len() + 1
                    &&& final(self).result.imports@ == old(self).result.imports@.push(
                        (e->Call_span, old(self).result.import_records@.len() as usize),
                    )
                },
                _ => true,
            },
            is_global_named(old(self).semantic, *e->callee, "eval"@) && !calls_eval(old(self).semantic, *e->callee)
                && !any_calls_eval(old(self).semantic, e->arguments@, e->arguments@.len() as int) ==> final(self).result.warnings@
                == old(self).result.warnings@.push(Diagnostic { kind: DiagnosticKind::Eval, file_path: old(self).file_path, source: old(self).source, span: e->Call_span }),
            final(self).eval_effect(*old(self), calls_eval(old(self).semantic, *e)),
            final(self).count_effect(*old(self), record_count(old(self).semantic, *e, false), record_count(old(self).semantic, *e, true)),
            final(self).class_refs_effect(*old(self), |c: usize| refers_to_class(old(self).semantic, old(self).cur_class_decl, c, *e)),
            final(self).record_effect(*old(self), adds_record(old(self).semantic, *e)),
            final(self).error_effect(*old(self), adds_error(old(self).semantic, old(self).format, old(self).spec_is_top_level(), *e)),
            final(self).error_count_effect(*old(self), error_count(old(self).semantic, old(self).format, old(self).spec_is_top_level(), *e)),
            final(self).marker_effect(*old(self), sets_marker(old(self).semantic, true, *e), sets_marker(old(self).semantic, false, *e)),
            final(self).extends(*old(self)),
            is_global_named(old(self).semantic, *e->callee, "eval"@) ==> {
                &&& final(self).result.has_eval
                &&& final(self).result.warnings@[old(self).result.warnings@.len() as int] == (Diagnostic {
                    kind: DiagnosticKind::Eval,
                    file_path: old(self).file_path,
                source: old(self).source,
                    span: e->Call_span,
                })
            },
            !is_global_named(old(self).semantic, *e->callee, "eval"@) ==> old(self).result.warnings@.len() <= final(self).result.warnings@.len(),
            global_require_call(old(self).semantic, *e->callee, e->arguments@) ==> match e->arguments@[0] {
                Expression::StringLiteral { value, span: request } =>
                    final(self).result.import_records@[old(self).result.import_records@.len() as int] == (ImportRecord {
                        request: value,
                        kind: ImportKind::Require,
                        source_span: request,
                        meta: ImportRecordMeta {
                            is_unspanned_import: request.spec_is_empty(),
                            is_require_unused: !request.spec_is_empty() && require_unused(old(self).visit_path@, e->Call_span),
                        },
                    }) && final(self).result.imports@[old(self).result.imports@.len() as int] == (
                        e->Call_span,
                        old(self).result.import_records@.len() as usize,
                    ),
                _ => true,
            },
        decreases e, 1nat,
    {
        if let Expression::Call { callee, arguments, span } = e {
            if is_global_eval(&self.semantic, callee) {
                self.result.has_eval = true;
                let file_path = self.file_path.clone();
                let source = self.source.clone();
                self.result.warnings.push(Diagnostic { kind: DiagnosticKind::Eval, file_path, source, span: *span });
            }
            if is_global_require_call(&self.semantic, callee, arguments) {
                if let Expression::StringLiteral { value, span: request } = &arguments[0] {
                    let meta = require_meta(&self.visit_path, *span, *request);
                    let id = self.add_import_record(value, ImportKind::Require, *request, meta);
                    self.result.imports.push((*span, id));
                }
            }
            let ghost mid = *self;
            self.visit_path.push(Ancestor::Other);
            self.visit_expression(callee);
            self.visit_expressions(arguments, Ghost(*e));
            self.visit_path.pop();
            proof {
                assert(self.visit_path@ =~= old(self).visit_path@);
                assert(self.extends(mid));
            }
        }
    }

    /// Records `import(x)` of a string literal, then visits it.
    pub fn visit_import_expression(&mut self, e: &Expression)
        requires
            e is Import,
        ensures
            *e->Import_source is StringLiteral ==> {
                &&& final(self).result.import_records@.len() == old(self).result.import_records@.len() + 1
                &&& final(self).result.imports@ == old(self).result.imports@.push(
                    (e->Import_span, old(self).result.import_records@.len() as usize),
                )
            },
            final(self).eval_effect(*old(self), calls_eval(old(self).semantic, *e)),
            final(self).count_effect(*old(self), record_count(old(self).semantic, *e, false), record_count(old(self).semantic, *e, true)),
            final(self).class_refs_effect(*old(self), |c: usize| refers_to_class(old(self).semantic, old(self).cur_class_decl, c, *e)),
            final(self).record_effect(*old(self), adds_record(old(self).semantic, *e)),
            final(self).error_effect(*old(self), adds_error(old(self).semantic, old(self).format, old(self).spec_is_top_level(), *e)),
            final(self).error_count_effect(*old(self), error_count(old(self).semantic, old(self).format, old(self).spec_is_top_level(), *e)),
            final(self).marker_effect(*old(self), sets_marker(old(self).semantic, true, *e), sets_marker(old(self).semantic, false, *e)),
            final(self).extends(*old(self)),
            match *e->Import_source {
                Expression::StringLiteral { value, span: request } => {
                    &&& final(self).result.import_records@[old(self).result.import_records@.len() as int] == (ImportRecord {
                        request: value,
                        kind: ImportKind::DynamicImport,
                        source_span: request,
                        meta: ImportRecordMeta { is_unspanned_import: request.spec_is_empty(), is_require_unused: false },
                    })
                    &&& final(self).result.imports@[old(self).result.imports@.len() as int] == (
                        e->Import_span,
                        old(self).result.import_records@.len() as usize,
                    )
                },
                _ => true,
            },
        decreases e, 1nat,
    {
        if let Expression::Import { source, span } = e {
            if let Expression::StringLiteral { value, span: request } = &**source {
                let meta = dynamic_import_meta(*request);
                let id = self.add_import_record(value, ImportKind::DynamicImport, *request, meta);
                self.result.imports.push((*span, id));
            }
            let ghost mid = *self;
            self.visit_path.push(Ancestor::Other);
            self.visit_expression(source);
            self.visit_path.pop();
            proof {
                assert(self.visit_path@ =~= old(self).visit_path@);
                assert(self.extends(mid));
            }
        }
    }

    /// Reports `await` at the top level where the output format cannot keep
    /// it, then visits the operand.
    pub fn visit_await_expression(&mut self, e: &Expression)
        requires
            e is Await,
        ensures
            await_rejected(old(self).format, old(self).spec_is_top_level())
                && !adds_error(old(self).semantic, old(self).format, old(self).spec_is_top_level(), *e->Await_argument)
                ==> final(self).result.errors@ == old(self).result.errors@.push(Diagnostic {
                kind: DiagnosticKind::UnsupportedTopLevelAwait(old(self).format->Some_0),
                file_path: old(self).file_path,
                source: old(self).source,
                span: e->Await_span,
            }),
            final(self).eval_effect(*old(self), calls_eval(old(self).semantic, *e)),
            final(self).count_effect(*old(self), record_count(old(self).semantic, *e, false), record_count(old(self).semantic, *e, true)),
            final(self).class_refs_effect(*old(self), |c: usize| refers_to_class(old(self).semantic, old(self).cur_class_decl, c, *e)),
            final(self).record_effect(*old(self), adds_record(old(self).semantic, *e)),
            final(self).error_effect(*old(self), adds_error(old(self).semantic, old(self).format, old(self).spec_is_top_level(), *e)),
            final(self).error_count_effect(*old(self), error_count(old(self).semantic, old(self).format, old(self).spec_is_top_level(), *e)),
            final(self).marker_effect(*old(self), sets_marker(old(self).semantic, true, *e), sets_marker(old(self).semantic, false, *e)),
            final(self).extends(*old(self)),
            await_rejected(old(self).format, old(self).spec_is_top_level()) ==> final(self).result.errors@[old(self).result.errors@.len() as int] == (Diagnostic {
                kind: DiagnosticKind::UnsupportedTopLevelAwait(old(self).format->Some_0),
                file_path: old(self).file_path,
                source: old(self).source,
                span: e->Await_span,
            }),
        decreases e, 1nat,
    {
        if let Expression::Await { argument, span } = e {
            let top_level = self.is_top_level();
            if top_level_await_rejected(self.format, top_level) {
                if let Some(format) = self.format {
                    self.push_error(DiagnosticKind::UnsupportedTopLevelAwait(format), *span);
                }
            }
            let ghost mid = *self;
            self.visit_path.push(Ancestor::Other);
            self.visit_expression(argument);
            self.visit_path.pop();
            proof {
                assert(self.visit_path@ =~= old(self).visit_path@);
                assert(self.extends(mid));
            }
        }
    }

    /// Reports `for await` at the top level where the output format cannot
    /// keep it, then visits the loop.
    pub fn visit_for_of_statement(&mut self, s: &Statement)
        requires
            s is ForOf,
        ensures
            s->is_await && await_rejected(old(self).format, old(self).spec_is_top_level())
                && !adds_error(old(self).semantic, old(self).format, old(self).spec_is_top_level(), s->ForOf_left)
                && !adds_error(old(self).semantic, old(self).format, old(self).spec_is_top_level(), s->ForOf_right)
                && !stmt_adds_error(old(self).semantic, old(self).format, old(self).spec_is_top_level(), *s->ForOf_body)
                ==> final(self).result.errors@ == old(self).result.errors@.push(Diagnostic {
                kind: DiagnosticKind::UnsupportedTopLevelAwait(old(self).format->Some_0),
                file_path: old(self).file_path,
                source: old(self).source,
                span: s->ForOf_span,
            }),
            final(self).eval_effect(*old(self), stmt_calls_eval(old(self).semantic, *s)),
            final(self).count_effect(*old(self), stmt_record_count(old(self).semantic, *s, false), stmt_record_count(old(self).semantic, *s, true)),
            final(self).class_refs_effect(*old(self), |c: usize| stmt_refers_to_class(old(self).semantic, old(self).cur_class_decl, c, *s)),
            final(self).record_effect(*old(self), stmt_adds_record(old(self).semantic, *s)),
            final(self).error_effect(*old(self), stmt_adds_error(old(self).semantic, old(self).format, old(self).spec_is_top_level(), *s)),
            final(self).error_count_effect(*old(self), stmt_error_count(old(self).semantic, old(self).format, old(self).spec_is_top_level(), *s)),
            final(self).marker_effect(*old(self), stmt_sets_marker(old(self).semantic, true, *s), stmt_sets_marker(old(self).semantic, false, *s)),
            final(self).extends(*old(self)),
            s->is_await && await_rejected(old(self).format, old(self).spec_is_top_level()) ==> final(self).result.errors@[old(self).result.errors@.len() as int] == (Diagnostic {
                kind: DiagnosticKind::UnsupportedTopLevelAwait(old(self).format->Some_0),
                file_path: old(self).file_path,
                source: old(self).source,
                span: s->ForOf_span,
            }),
        decreases s, 1nat,
    {
        if let Statement::ForOf { is_await, left, right, body, span } = s {
            if *is_await {
                let top_level = self.is_top_level();
                if top_level_await_rejected(self.format, top_level) {
                    if let Some(format) = self.format {
                        self.push_error(DiagnosticKind::UnsupportedTopLevelAwait(format), *span);
                    }
                }
            }
            let ghost mid = *self;
            self.visit_path.push(Ancestor::Other);
            self.scope_stack.push(ScopeKind::Block);
            self.visit_expression(left);
            self.visit_expression(right);
            self.visit_statement(body);
            self.scope_stack.pop();
            self.visit_path.pop();
            proof {
                assert(self.visit_path@ =~= old(self).visit_path@);
                assert(self.scope_stack@ =~= old(self).scope_stack@);
                assert(self.extends(mid));
            }
        }
    }

    /// Visits a class declaration. A named class is visited with its symbol as
    /// the current class, so that its references to itself are recorded; the
    /// enclosing class, if any, is restored afterwards.
    pub fn scan_class_declaration(&mut self, class: &Class)
        ensures
            final(self).eval_effect(*old(self), any_calls_eval(old(self).semantic, class.members@, class.members@.len() as int)),
            final(self).count_effect(*old(self), records_in(old(self).semantic, class.members@, class.members@.len() as int, false), records_in(old(self).semantic, class.members@, class.members@.len() as int, true)),
            final(self).class_refs_effect(*old(self), |c: usize| any_refers_to_class(old(self).semantic, class_context(class.id, old(self).cur_class_decl), c, class.members@, class.members@.len() as int)),
            final(self).record_effect(*old(self), any_adds_record(old(self).semantic, class.members@, class.members@.len() as int)),
            final(self).error_effect(*old(self), any_adds_error(old(self).semantic, old(self).format, old(self).spec_is_top_level(), class.members@, class.members@.len() as int)),
            final(self).error_count_effect(*old(self), errors_in(old(self).semantic, old(self).format, old(self).spec_is_top_level(), class.members@, class.members@.len() as int)),
            final(self).marker_effect(*old(self), any_sets_marker(old(self).semantic, true, class.members@, class.members@.len() as int), any_sets_marker(old(self).semantic, false, class.members@, class.members@.len() as int)),
            final(self).extends(*old(self)),
            class.id matches Some(id) ==> {
                &&& old(self).semantic.spec_is_root_symbol(id.symbol_id) ==> final(self).current_stmt_info.declared_symbols@.len() > old(self).current_stmt_info.declared_symbols@.len()
                &&& old(self).semantic.spec_is_root_symbol(id.symbol_id) ==> final(self).current_stmt_info.declared_symbols@[old(self).current_stmt_info.declared_symbols@.len() as int] == id.symbol_id
                &&& forall|j: int| 0 <= j < class.members@.len() && #[trigger] old(self).semantic.resolved_name(class.members@[j]) == Some(id.symbol_id)
                    ==> final(self).result.self_referenced_class_decl_symbol_ids@.contains(id.symbol_id)
            },
        decreases class, 2nat,
    {
        let previous = self.cur_class_decl;
        if let Some(id) = &class.id {
            self.visit_binding_identifier(id);
            self.cur_class_decl = Some(id.symbol_id);
        }
        let ghost start = *self;
        self.visit_path.push(Ancestor::Other);
        let mut i: usize = 0;
        while i < class.members.len()
            invariant
                i <= class.members@.len(),
                self.collects(*old(self)),
                self.collects(start),
                self.eval_effect(*old(self), any_calls_eval(old(self).semantic, class.members@, i as int)),
                self.count_effect(*old(self), records_in(old(self).semantic, class.members@, i as int, false), records_in(old(self).semantic, class.members@, i as int, true)),
                self.class_refs_effect(*old(self), |c: usize| any_refers_to_class(old(self).semantic, start.cur_class_decl, c, class.members@, i as int)),
                self.record_effect(*old(self), any_adds_record(old(self).semantic, class.members@, i as int)),
                self.error_effect(*old(self), any_adds_error(old(self).semantic, old(self).format, old(self).spec_is_top_level(), class.members@, i as int)),
                self.error_count_effect(*old(self), errors_in(old(self).semantic, old(self).format, old(self).spec_is_top_level(), class.members@, i as int)),
                self.marker_effect(*old(self), any_sets_marker(old(self).semantic, true, class.members@, i as int), any_sets_marker(old(self).semantic, false, class.members@, i as int)),
                self.visit_path@ == old(self).visit_path@.push(Ancestor::Other),
                previous == old(self).cur_class_decl,
                self.cur_class_decl == start.cur_class_decl,
                class.id matches Some(id) ==> start.cur_class_decl == Some(id.symbol_id),
                start.cur_class_decl == class_context(class.id, old(self).cur_class_decl),
                class.id matches Some(id) ==> (old(self).semantic.spec_is_root_symbol(id.symbol_id) ==> (
                    self.current_stmt_info.declared_symbols@.len() > old(self).current_stmt_info.declared_symbols@.len()
                    && self.current_stmt_info.declared_symbols@[old(self).current_stmt_info.declared_symbols@.len() as int] == id.symbol_id)),
                class.id matches Some(id) ==> forall|j: int| 0 <= j < i && #[trigger] old(self).semantic.resolved_name(class.members@[j]) == Some(id.symbol_id)
                    ==> self.result.self_referenced_class_decl_symbol_ids@.contains(id.symbol_id),
            decreases class.members@.len() - i,
        {
            let ghost before = *self;
            proof {
                lemma_any_calls_eval_step(old(self).semantic, class.members@, i as int);
                assert forall|c: usize|
                    #[trigger] any_refers_to_class(old(self).semantic, start.cur_class_decl, c, class.members@, i as int + 1)
                        == (any_refers_to_class(old(self).semantic, start.cur_class_decl, c, class.members@, i as int) || refers_to_class(old(self).semantic, start.cur_class_decl, c, class.members@[i as int]))
                by {
                    lemma_any_refers_to_class_step(old(self).semantic, start.cur_class_decl, c, class.members@, i as int);
                }
                lemma_any_adds_record_step(old(self).semantic, class.members@, i as int);
                lemma_any_adds_error_step(old(self).semantic, old(self).format, old(self).spec_is_top_level(), class.members@, i as int);
                lemma_any_sets_marker_step(old(self).semantic, true, class.members@, i as int);
                lemma_any_sets_marker_step(old(self).semantic, false, class.members@, i as int);
            }
            self.visit_expression(&class.members[i]);
            proof {
                if let Some(id) = &class.id {
                    if old(self).semantic.resolved_name(class.members@[i as int]) == Some(id.symbol_id) {
                        assert(self_reference(before.semantic, before.cur_class_decl, class.members@[i as int]) == Some(id.symbol_id));
                    }
                    assert forall|j: int| 0 <= j < i && #[trigger] old(self).semantic.resolved_name(class.members@[j]) == Some(id.symbol_id)
                        implies self.result.self_referenced_class_decl_symbol_ids@.contains(id.symbol_id) by {
                        let k = choose|k: int| 0 <= k < before.result.self_referenced_class_decl_symbol_ids@.len() && before.result.self_referenced_class_decl_symbol_ids@[k] == id.symbol_id;
                        assert(self.result.self_referenced_class_decl_symbol_ids@[k] == id.symbol_id);
                    }
                }
            }
            i = i + 1;
        }
        self.visit_path.pop();
        self.cur_class_decl = previous;
        proof { assert(self.visit_path@ =~= old(self).visit_path@); }
    }

    /// Records an import declaration: one record for its source, and each of
    /// its bindings as a named import of that record.
    pub fn scan_module_decl(&mut self, s: &Statement)
        requires
            s is Import,
        ensures
            *s matches Statement::Import { specifiers, .. } ==> forall|i: int| 0 <= i < specifiers@.len()
                && old(self).semantic.spec_is_root_symbol(#[trigger] specifiers@[i].local.symbol_id)
                ==> final(self).current_stmt_info.declared_symbols@.contains(specifiers@[i].local.symbol_id),
            final(self).eval_effect(*old(self), false),
            final(self).count_effect(*old(self), 1, 0),
            final(self).class_refs_effect(*old(self), |c: usize| false),
            final(self).error_effect(*old(self), false),
            final(self).error_count_effect(*old(self), 0),
            final(self).marker_effect(*old(self), false, false),
            final(self).extends(*old(self)),
            match *s {
                Statement::Import { specifiers, source, source_span, .. } => {
                    &&& final(self).result.import_records@ == old(self).result.import_records@.push(ImportRecord {
                        request: source,
                        kind: ImportKind::StaticImport,
                        source_span,
                        meta: ImportRecordMeta { is_unspanned_import: false, is_require_unused: false },
                    })
                    &&& final(self).result.named_imports@.len() == old(self).result.named_imports@.len() + specifiers@.len()
                    &&& forall|i: int| 0 <= i < specifiers@.len() ==> (#[trigger] final(self).result.named_imports@[old(self).result.named_imports@.len() + i]) == (NamedImport {
                        local_symbol: specifiers@[i].local.symbol_id,
                        imported: specifiers@[i].imported,
                        record: old(self).result.import_records@.len() as usize,
                    })
                },
                _ => true,
            },
    {
        if let Statement::Import { specifiers, source, source_span, .. } = s {
            let record = self.add_import_record(source, ImportKind::StaticImport, *source_span, ImportRecordMeta::empty());
            let ghost mid = *self;
            let mut i: usize = 0;
            while i < specifiers.len()
                invariant
                    i <= specifiers@.len(),
                    *s matches Statement::Import { specifiers: sp, .. } && sp == *specifiers,
                    self.extends(mid),
                    self.eval_effect(mid, false),
                    self.count_effect(mid, 0, 0),
                    self.semantic == old(self).semantic,
                    self.class_refs_effect(mid, |c: usize| false),
                    self.record_effect(mid, false),
                    self.error_effect(mid, false),
                    self.error_count_effect(mid, 0),
                    self.marker_effect(mid, false, false),
                    self.result.import_records@ == mid.result.import_records@,
                    record == old(self).result.import_records@.len(),
                    self.result.named_imports@.len() == mid.result.named_imports@.len() + i,
                    forall|j: int| 0 <= j < i && old(self).semantic.spec_is_root_symbol(#[trigger] specifiers@[j].local.symbol_id)
                        ==> self.current_stmt_info.declared_symbols@.contains(specifiers@[j].local.symbol_id),
                    forall|j: int| 0 <= j < i ==> (#[trigger] self.result.named_imports@[mid.result.named_imports@.len() + j]) == (NamedImport {
                        local_symbol: specifiers@[j].local.symbol_id,
                        imported: specifiers@[j].imported,
                        record,
                    }),
                decreases specifiers@.len() - i,
            {
                let ghost before_decl = self.current_stmt_info.declared_symbols@;
                let ghost before = self.result.named_imports@;
                self.result.named_imports.push(NamedImport {
                    local_symbol: specifiers[i].local.symbol_id,
                    imported: specifiers[i].imported.clone(),
                    record,
                });
                self.visit_binding_identifier(&specifiers[i].local);
                proof {
                    assert forall|j: int| 0 <= j < i + 1 && old(self).semantic.spec_is_root_symbol(#[trigger] specifiers@[j].local.symbol_id)
                        implies self.current_stmt_info.declared_symbols@.contains(specifiers@[j].local.symbol_id) by {
                        if j < i {
                            let k = choose|k: int| 0 <= k < before_decl.len() && before_decl[k] == specifiers@[j].local.symbol_id;
                            assert(self.current_stmt_info.declared_symbols@[k] == before_decl[k]);
                        } else {
                            assert(j == i);
                            assert(self.current_stmt_info.declared_symbols@ == before_decl.push(specifiers@[j].local.symbol_id));
                            assert(self.current_stmt_info.declared_symbols@[before_decl.len() as int] == specifiers@[j].local.symbol_id);
                        }
                    }
                    assert forall|j: int| 0 <= j <= i implies (#[trigger] self.result.named_imports@[mid.result.named_imports@.len() + j]) == (NamedImport {
                        local_symbol: specifiers@[j].local.symbol_id,
                        imported: specifiers@[j].imported,
                        record,
                    }) by {
                        assert(self.result.named_imports@[mid.result.named_imports@.len() + j] == before.push(NamedImport {
                            local_symbol: specifiers@[i as int].local.symbol_id,
                            imported: specifiers@[i as int].imported,
                            record,
                        })[mid.result.named_imports@.len() + j]);
                    }
                }
                i = i + 1;
            }
        }
    }

    /// Scans the module's statements in order: each is classified for side
    /// effects, visited, and committed as one `StmtInfo` at its index.
    pub fn visit_program(&mut self, program: &Program)
        requires
            old(self).result.stmt_infos@.len() == 0,
        ensures
            final(self).eval_effect(*old(self), any_stmt_calls_eval(old(self).semantic, program.body@, program.body@.len() as int)),
            final(self).count_effect(*old(self), stmt_records_in(old(self).semantic, program.body@, program.body@.len() as int, false), stmt_records_in(old(self).semantic, program.body@, program.body@.len() as int, true)),
            final(self).class_refs_effect(*old(self), |c: usize| any_stmt_refers_to_class(old(self).semantic, old(self).cur_class_decl, c, program.body@, program.body@.len() as int)),
            final(self).record_effect(*old(self), any_stmt_adds_record(old(self).semantic, program.body@, program.body@.len() as int)),
            final(self).error_effect(*old(self), any_stmt_adds_error(old(self).semantic, old(self).format, old(self).spec_is_top_level(), program.body@, program.body@.len() as int)),
            final(self).error_count_effect(*old(self), stmt_errors_in(old(self).semantic, old(self).format, old(self).spec_is_top_level(), program.body@, program.body@.len() as int)),
            final(self).marker_effect(*old(self), any_stmt_sets_marker(old(self).semantic, true, program.body@, program.body@.len() as int), any_stmt_sets_marker(old(self).semantic, false, program.body@, program.body@.len() as int)),
            final(self).result.stmt_infos@.len() == program.body@.len(),
            forall|i: int| 0 <= i < program.body@.len() ==> {
                &&& (#[trigger] final(self).result.stmt_infos@[i]).index == i
                &&& final(self).result.stmt_infos@[i].has_side_effect == !pure_statement(old(self).semantic, program.body@[i])
            },
            final(self).result.hashbang_range == program.hashbang,
            final(self).semantic == old(self).semantic,
            final(self).visit_path@ == old(self).visit_path@,
            final(self).scope_stack@ == old(self).scope_stack@,
            final(self).cur_class_decl == old(self).cur_class_decl,
            program.body@.len() > 0 ==> {
                &&& final(self).current_stmt_info.declared_symbols@.len() == 0
                &&& final(self).current_stmt_info.referenced_symbols@.len() == 0
                &&& final(self).current_stmt_info.index == 0
                &&& !final(self).current_stmt_info.has_side_effect
            },
            prefix_of(old(self).result.import_records@, final(self).result.import_records@),
            prefix_of(old(self).result.errors@, final(self).result.errors@),
            prefix_of(old(self).result.warnings@, final(self).result.warnings@),
    {
        let mut i: usize = 0;
        while i < program.body.len()
            invariant
                i <= program.body@.len(),
                self.result.stmt_infos@.len() == i,
                forall|j: int| 0 <= j < i ==> {
                    &&& (#[trigger] self.result.stmt_infos@[j]).index == j
                    &&& self.result.stmt_infos@[j].has_side_effect == !pure_statement(old(self).semantic, program.body@[j])
                },
                self.result.hashbang_range == old(self).result.hashbang_range,
                self.semantic == old(self).semantic,
                self.format == old(self).format,
                self.visit_path@ == old(self).visit_path@,
                self.scope_stack@ == old(self).scope_stack@,
                self.cur_class_decl == old(self).cur_class_decl,
                old(self).cjs_module_ident is Some ==> self.cjs_module_ident == old(self).cjs_module_ident,
                old(self).cjs_exports_ident is Some ==> self.cjs_exports_ident == old(self).cjs_exports_ident,
                self.eval_effect(*old(self), any_stmt_calls_eval(old(self).semantic, program.body@, i as int)),
                self.count_effect(*old(self), stmt_records_in(old(self).semantic, program.body@, i as int, false), stmt_records_in(old(self).semantic, program.body@, i as int, true)),
                self.class_refs_effect(*old(self), |c: usize| any_stmt_refers_to_class(old(self).semantic, old(self).cur_class_decl, c, program.body@, i as int)),
                self.record_effect(*old(self), any_stmt_adds_record(old(self).semantic, program.body@, i as int)),
                self.error_effect(*old(self), any_stmt_adds_error(old(self).semantic, old(self).format, old(self).spec_is_top_level(), program.body@, i as int)),
                self.error_count_effect(*old(self), stmt_errors_in(old(self).semantic, old(self).format, old(self).spec_is_top_level(), program.body@, i as int)),
                self.marker_effect(*old(self), any_stmt_sets_marker(old(self).semantic, true, program.body@, i as int), any_stmt_sets_marker(old(self).semantic, false, program.body@, i as int)),
                i > 0 ==> {
                    &&& self.current_stmt_info.declared_symbols@.len() == 0
                    &&& self.current_stmt_info.referenced_symbols@.len() == 0
                    &&& self.current_stmt_info.index == 0
                    &&& !self.current_stmt_info.has_side_effect
                },
                prefix_of(old(self).result.import_records@, self.result.import_records@),
                prefix_of(old(self).result.errors@, self.result.errors@),
                prefix_of(old(self).result.warnings@, self.result.warnings@),
            decreases program.body@.len() - i,
        {
            proof {
                lemma_any_stmt_calls_eval_step(old(self).semantic, program.body@, i as int);
                assert forall|c: usize|
                    #[trigger] any_stmt_refers_to_class(old(self).semantic, old(self).cur_class_decl, c, program.body@, i as int + 1)
                        == (any_stmt_refers_to_class(old(self).semantic, old(self).cur_class_decl, c, program.body@, i as int) || stmt_refers_to_class(old(self).semantic, old(self).cur_class_decl, c, program.body@[i as int]))
                by {
                    lemma_any_stmt_refers_to_class_step(old(self).semantic, old(self).cur_class_decl, c, program.body@, i as int);
                }
                lemma_any_stmt_adds_record_step(old(self).semantic, program.body@, i as int);
                lemma_any_stmt_adds_error_step(old(self).semantic, old(self).format, old(self).spec_is_top_level(), program.body@, i as int);
                lemma_any_stmt_sets_marker_step(old(self).semantic, true, program.body@, i as int);
                lemma_any_stmt_sets_marker_step(old(self).semantic, false, program.body@, i as int);
            }
            assert(self.spec_is_top_level() == old(self).spec_is_top_level());
            let side_effect = has_side_effect(&self.semantic, &program.body[i]);
            self.current_stmt_info = StmtInfo::new(i, side_effect);
            self.visit_statement(&program.body[i]);
            let mut info = StmtInfo::new(0, false);
            std::mem::swap(&mut self.current_stmt_info, &mut info);
            self.result.stmt_infos.push(info);
            i = i + 1;
        }
        self.result.hashbang_range = program.hashbang;
    }

    /// Records a binding of a module-level symbol as declared by the current
    /// statement.
    pub fn visit_binding_identifier(&mut self, ident: &BindingIdentifier)
        ensures
            final(self).eval_effect(*old(self), false),
            final(self).count_effect(*old(self), 0, 0),
            final(self).class_refs_effect(*old(self), |c: usize| false),
            final(self).record_effect(*old(self), false),
            final(self).error_effect(*old(self), false),
            final(self).error_count_effect(*old(self), 0),
            final(self).marker_effect(*old(self), false, false),
            final(self).extends(*old(self)),
            final(self).current_stmt_info.declared_symbols@ == if old(self).semantic.spec_is_root_symbol(ident.symbol_id) {
                old(self).current_stmt_info.declared_symbols@.push(ident.symbol_id)
            } else {
                old(self).current_stmt_info.declared_symbols@
            },
            final(self).result == old(self).result,
            final(self).cjs_module_ident == old(self).cjs_module_ident,
            final(self).cjs_exports_ident == old(self).cjs_exports_ident,
    {
        if self.semantic.is_root_symbol(ident.symbol_id) {
            self.current_stmt_info.declared_symbols.push(ident.symbol_id);
        }
    }

    /// Records a read of a module-level symbol, and a reference of the class
    /// being declared to itself.
    pub fn visit_identifier_reference(&mut self, ident: &IdentifierReference)
        ensures
            final(self).current_stmt_info.declared_symbols@ == old(self).current_stmt_info.declared_symbols@,
            final(self).result.import_records@ == old(self).result.import_records@,
            final(self).result.imports@ == old(self).result.imports@,
            final(self).result.named_imports@ == old(self).result.named_imports@,
            final(self).result.errors@ == old(self).result.errors@,
            final(self).result.warnings@ == old(self).result.warnings@,
            final(self).cjs_module_ident == old(self).cjs_module_ident,
            final(self).cjs_exports_ident == old(self).cjs_exports_ident,
            final(self).eval_effect(*old(self), false),
            final(self).count_effect(*old(self), 0, 0),
            final(self).record_effect(*old(self), false),
            final(self).error_effect(*old(self), false),
            final(self).error_count_effect(*old(self), 0),
            final(self).marker_effect(*old(self), false, false),
            final(self).extends(*old(self)),
            final(self).current_stmt_info.referenced_symbols@ == match old(self).semantic.root_symbol_of(ident.reference_id) {
                Some(s) => old(self).current_stmt_info.referenced_symbols@.push(SymbolRef::Symbol(s)),
                None => old(self).current_stmt_info.referenced_symbols@,
            },
            forall|s: usize| #[trigger] final(self).result.self_referenced_class_decl_symbol_ids@.contains(s) <==> (
                old(self).result.self_referenced_class_decl_symbol_ids@.contains(s) || (old(self).cur_class_decl
                    == Some(s) && old(self).semantic.resolved(ident.reference_id) == Some(s))),
    {
        if let Some(symbol) = self.semantic.resolve_to_root_symbol(ident.reference_id) {
            self.current_stmt_info.referenced_symbols.push(SymbolRef::Symbol(symbol));
        }
        self.note_self_reference(ident.reference_id);
    }

    /// Marks the class being declared as referring to itself when the
    /// reference resolves to it.
    fn note_self_reference(&mut self, reference_id: usize)
        ensures
            *final(self) == (AstScanner {
                result: ScanResult {
                    self_referenced_class_decl_symbol_ids: final(self).result.self_referenced_class_decl_symbol_ids,
                    ..old(self).result
                },
                ..*old(self)
            }),
            prefix_of(
                old(self).result.self_referenced_class_decl_symbol_ids@,
                final(self).result.self_referenced_class_decl_symbol_ids@,
            ),
            forall|s: usize| #[trigger] final(self).result.self_referenced_class_decl_symbol_ids@.contains(s) <==> (
                old(self).result.self_referenced_class_decl_symbol_ids@.contains(s) || (old(self).cur_class_decl
                    == Some(s) && old(self).semantic.resolved(reference_id) == Some(s))),
    {
        if let Some(class_symbol) = self.cur_class_decl {
            if self.semantic.resolve(reference_id) == Some(class_symbol) {
                if !contains_symbol(&self.result.self_referenced_class_decl_symbol_ids, class_symbol) {
                    self.result.self_referenced_class_decl_symbol_ids.push(class_symbol);
                }
                proof {
                    let before = old(self).result.self_referenced_class_decl_symbol_ids@;
                    let after = self.result.self_referenced_class_decl_symbol_ids@;
                    assert forall|s: usize| #[trigger] after.contains(s) <==> (before.contains(s) || s == class_symbol) by {
                        if after.len() > before.len() {
                            assert(after =~= before.push(class_symbol));
                            if s == class_symbol {
                                assert(after[before.len() as int] == s);
                            }
                            if before.contains(s) {
                                let k = choose|k: int| 0 <= k < before.len() && before[k] == s;
                                assert(after[k] == s);
                            }
                            if after.contains(s) && s != class_symbol {
                                let k = choose|k: int| 0 <= k < after.len() && after[k] == s;
                                assert(before[k] == s);
                            }
                        } else {
                            assert(after =~= before);
                        }
                    }
                }
            }
        }
    }
}

} // verus!
