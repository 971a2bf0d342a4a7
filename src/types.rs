use vstd::prelude::*;
use crate::span::Span;

verus! {

/// The output format of a bundle.
#[derive(Clone, Copy, Debug, PartialEq, Eq, Structural)]
pub enum OutputFormat {
    Esm,
    Cjs,
    App,
    Iife,
    Umd,
}

impl OutputFormat {
    pub open spec fn spec_keeps_esm_syntax(self) -> bool {
        self is Esm || self is App
    }

    /// Whether the output keeps `import` and `export` as they are, so that the
    /// target runtime can be assumed to support top-level `await`.
    pub fn keep_esm_import_export_syntax(&self) -> (r: bool)
        ensures
            r == self.spec_keeps_esm_syntax(),
    {
        match self {
            OutputFormat::Esm | OutputFormat::App => true,
            _ => false,
        }
    }

    /// The name of the format as users write it.
    pub fn name(&self) -> (r: &'static str)
        ensures
            r@ == match self {
                OutputFormat::Esm => "esm"@,
                OutputFormat::Cjs => "cjs"@,
                OutputFormat::App => "app"@,
                OutputFormat::Iife => "iife"@,
                OutputFormat::Umd => "umd"@,
            },
    {
        match self {
            OutputFormat::Esm => "esm",
            OutputFormat::Cjs => "cjs",
            OutputFormat::App => "app",
            OutputFormat::Iife => "iife",
            OutputFormat::Umd => "umd",
        }
    }
}

#[derive(Clone, Copy, Debug, PartialEq, Eq, Structural)]
pub enum ImportKind {
    StaticImport,
    DynamicImport,
    Require,
}

#[derive(Clone, Copy, Debug, PartialEq, Eq, Structural)]
pub struct ImportRecordMeta {
    /// The request literal was synthesized and has no place in the source.
    pub is_unspanned_import: bool,
    /// The value of a `require` call is thrown away.
    pub is_require_unused: bool,
}

impl ImportRecordMeta {
    pub fn empty() -> (r: ImportRecordMeta)
        ensures
            !r.is_unspanned_import,
            !r.is_require_unused,
    {
        ImportRecordMeta { is_unspanned_import: false, is_require_unused: false }
    }
}

#[derive(Clone, Debug)]
pub struct ImportRecord {
    pub request: String,
    pub kind: ImportKind,
    pub source_span: Span,
    pub meta: ImportRecordMeta,
}

/// A module-level symbol that a statement reads: either plainly, or as the
/// root of a chain of property reads off an imported binding.
#[derive(Clone, Debug)]
pub enum SymbolRef {
    Symbol(usize),
    MemberExpr { symbol: usize, props: Vec<String>, span: Span },
}

/// What the scan records of one top-level statement.
#[derive(Clone, Debug)]
pub struct StmtInfo {
    pub index: usize,
    pub has_side_effect: bool,
    pub declared_symbols: Vec<usize>,
    pub referenced_symbols: Vec<SymbolRef>,
}

impl StmtInfo {
    pub fn new(index: usize, has_side_effect: bool) -> (r: StmtInfo)
        ensures
            r.index == index,
            r.has_side_effect == has_side_effect,
            r.declared_symbols@.len() == 0,
            r.referenced_symbols@.len() == 0,
    {
        StmtInfo { index, has_side_effect, declared_symbols: Vec::new(), referenced_symbols: Vec::new() }
    }
}

#[derive(Clone, Debug)]
pub enum DiagnosticKind {
    /// Top-level `await` under an output format that cannot keep it.
    UnsupportedTopLevelAwait(OutputFormat),
    /// A call of the global `eval`.
    Eval,
    /// An assignment to a `const` binding, with the binding's name.
    ForbidConstAssign(String),
}

#[derive(Clone, Debug)]
pub struct Diagnostic {
    pub kind: DiagnosticKind,
    pub file_path: String,
    /// The text of the module the span points into.
    pub source: String,
    pub span: Span,
}

/// A binding brought in by an import declaration.
#[derive(Clone, Debug)]
pub struct NamedImport {
    pub local_symbol: usize,
    pub imported: String,
    pub record: usize,
}

/// Everything the scan of one module produces.
#[derive(Debug)]
pub struct ScanResult {
    pub stmt_infos: Vec<StmtInfo>,
    pub import_records: Vec<ImportRecord>,
    /// The span of each `import()` or `require()` expression, with the index
    /// of its record.
    pub imports: Vec<(Span, usize)>,
    pub named_imports: Vec<NamedImport>,
    pub has_eval: bool,
    pub errors: Vec<Diagnostic>,
    pub warnings: Vec<Diagnostic>,
    pub hashbang_range: Option<Span>,
    pub self_referenced_class_decl_symbol_ids: Vec<usize>,
}

impl ScanResult {
    pub fn new() -> (r: ScanResult)
        ensures
            r.stmt_infos@.len() == 0,
            r.import_records@.len() == 0,
            r.imports@.len() == 0,
            r.named_imports@.len() == 0,
            !r.has_eval,
            r.errors@.len() == 0,
            r.warnings@.len() == 0,
            r.hashbang_range is None,
            r.self_referenced_class_decl_symbol_ids@.len() == 0,
    {
        ScanResult {
            stmt_infos: Vec::new(),
            import_records: Vec::new(),
            imports: Vec::new(),
            named_imports: Vec::new(),
            has_eval: false,
            errors: Vec::new(),
            warnings: Vec::new(),
            hashbang_range: None,
            self_referenced_class_decl_symbol_ids: Vec::new(),
        }
    }
}

} // verus!
