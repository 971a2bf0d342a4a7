use ast_scan::ast::{
    AssignmentTarget, BindingIdentifier, Class, Expression, IdentifierReference, ImportSpecifier,
    Program, Statement, VariableDeclarator, VariableKind,
};
use ast_scan::scanner::AstScanner;
use ast_scan::semantic::Semantic;
use ast_scan::span::Span;
use ast_scan::types::{DiagnosticKind, ImportKind, OutputFormat, ScanResult, SymbolRef};

fn sp(start: u32, end: u32) -> Span {
    Span::new(start, end)
}

fn ident(name: &str, reference_id: usize, start: u32) -> Expression {
    Expression::Identifier(IdentifierReference {
        name: name.to_string(),
        span: sp(start, start + name.len() as u32),
        reference_id,
    })
}

fn binding(name: &str, symbol_id: usize, start: u32) -> BindingIdentifier {
    BindingIdentifier { name: name.to_string(), span: sp(start, start + name.len() as u32), symbol_id }
}

fn string(value: &str, start: u32) -> Expression {
    Expression::StringLiteral { value: value.to_string(), span: sp(start, start + value.len() as u32 + 2) }
}

fn number(start: u32) -> Expression {
    Expression::Other { operands: Vec::new(), pure: true, span: sp(start, start + 1) }
}

fn call(callee: Expression, arguments: Vec<Expression>, span: Span) -> Expression {
    Expression::Call { callee: Box::new(callee), arguments, span }
}

fn expr_stmt(expression: Expression, span: Span) -> Statement {
    Statement::Expression { expression, span }
}

fn const_decl(id: BindingIdentifier, init: Expression, span: Span) -> Statement {
    Statement::VariableDeclaration {
        kind: VariableKind::Const,
        declarations: vec![VariableDeclarator { id, init: Some(init) }],
        span,
    }
}

/// A table where references `0..refs.len()` resolve as given and every
/// symbol is declared in scope `scopes[i]`, the module scope being 0.
fn semantic(scopes: Vec<usize>, consts: Vec<bool>, refs: Vec<Option<usize>>) -> Semantic {
    Semantic { root_scope: 0, symbol_scopes: scopes, symbol_is_const: consts, reference_symbols: refs }
}

fn scan(sem: Semantic, format: Option<OutputFormat>, body: Vec<Statement>) -> AstScanner {
    let mut scanner = AstScanner::new(sem, "entry.js".to_string(), "source text".to_string(), format);
    scanner.visit_program(&Program { hashbang: None, body });
    scanner
}

fn result(scanner: &AstScanner) -> &ScanResult {
    &scanner.result
}

#[test]
fn one_stmt_info_per_statement_in_order() {
    // const a = 1; foo(); function f() {}
    let sem = semantic(vec![0, 0], vec![true, false], vec![None]);
    let body = vec![
        const_decl(binding("a", 0, 6), number(10), sp(0, 12)),
        expr_stmt(call(ident("foo", 0, 13), vec![], sp(13, 18)), sp(13, 19)),
        Statement::FunctionDeclaration { id: binding("f", 1, 29), params: vec![], body: vec![], span: sp(20, 35) },
    ];
    let scanner = scan(sem, None, body);
    let infos = &result(&scanner).stmt_infos;
    assert_eq!(infos.len(), 3);
    for (i, info) in infos.iter().enumerate() {
        assert_eq!(info.index, i);
    }
    assert!(!infos[0].has_side_effect);
    assert!(infos[1].has_side_effect);
    assert!(!infos[2].has_side_effect);
    assert_eq!(infos[0].declared_symbols, vec![0]);
    assert_eq!(infos[2].declared_symbols, vec![1]);
}

#[test]
fn empty_module_has_no_stmt_infos() {
    let scanner = scan(semantic(vec![], vec![], vec![]), None, vec![]);
    assert!(result(&scanner).stmt_infos.is_empty());
    assert!(result(&scanner).hashbang_range.is_none());
}

#[test]
fn hashbang_span_is_recorded() {
    let mut scanner = AstScanner::new(semantic(vec![], vec![], vec![]), "a.js".to_string(), String::new(), None);
    scanner.visit_program(&Program { hashbang: Some(sp(0, 14)), body: vec![] });
    assert_eq!(scanner.result.hashbang_range, Some(sp(0, 14)));
}

#[test]
fn standalone_require_is_unused() {
    // require("x");
    let sem = semantic(vec![], vec![], vec![None]);
    let body = vec![expr_stmt(call(ident("require", 0, 0), vec![string("x", 8)], sp(0, 12)), sp(0, 13))];
    let scanner = scan(sem, None, body);
    let r = result(&scanner);
    assert_eq!(r.import_records.len(), 1);
    assert_eq!(r.import_records[0].kind, ImportKind::Require);
    assert_eq!(r.import_records[0].request, "x");
    assert_eq!(r.import_records[0].source_span, sp(8, 11));
    assert!(r.import_records[0].meta.is_require_unused);
    assert!(!r.import_records[0].meta.is_unspanned_import);
    assert_eq!(r.imports, vec![(sp(0, 12), 0)]);
}

#[test]
fn assigned_require_is_used() {
    // const y = require("x");
    let sem = semantic(vec![0], vec![true], vec![None]);
    let body = vec![const_decl(
        binding("y", 0, 6),
        call(ident("require", 0, 10), vec![string("x", 18)], sp(10, 22)),
        sp(0, 23),
    )];
    let scanner = scan(sem, None, body);
    let r = result(&scanner);
    assert_eq!(r.import_records.len(), 1);
    assert!(!r.import_records[0].meta.is_require_unused);
}

#[test]
fn require_not_last_in_sequence_is_unused() {
    // (require("x"), 1);
    let sem = semantic(vec![], vec![], vec![None]);
    let req = call(ident("require", 0, 1), vec![string("x", 9)], sp(1, 13));
    let seq = Expression::Sequence { expressions: vec![req, number(15)], span: sp(1, 16) };
    let paren = Expression::Parenthesized { expression: Box::new(seq), span: sp(0, 17) };
    let scanner = scan(sem, None, vec![expr_stmt(paren, sp(0, 18))]);
    assert!(result(&scanner).import_records[0].meta.is_require_unused);
}

#[test]
fn require_last_in_sequence_is_used() {
    // const y = (1, require("x"));
    let sem = semantic(vec![0], vec![true], vec![None]);
    let req = call(ident("require", 0, 14), vec![string("x", 22)], sp(14, 26));
    let seq = Expression::Sequence { expressions: vec![number(11), req], span: sp(11, 26) };
    let paren = Expression::Parenthesized { expression: Box::new(seq), span: sp(10, 27) };
    let scanner = scan(sem, None, vec![const_decl(binding("y", 0, 6), paren, sp(0, 28))]);
    assert!(!result(&scanner).import_records[0].meta.is_require_unused);
}

#[test]
fn standalone_require_last_in_sequence_is_used() {
    // (1, require("x"));
    let sem = semantic(vec![], vec![], vec![None]);
    let req = call(ident("require", 0, 4), vec![string("x", 12)], sp(4, 16));
    let seq = Expression::Sequence { expressions: vec![number(1), req], span: sp(1, 16) };
    let paren = Expression::Parenthesized { expression: Box::new(seq), span: sp(0, 17) };
    let scanner = scan(sem, None, vec![expr_stmt(paren, sp(0, 18))]);
    assert!(!result(&scanner).import_records[0].meta.is_require_unused);
}

#[test]
fn require_dropped_by_sequence_in_argument_is_used() {
    // foo((require("x"), 1));
    let sem = semantic(vec![], vec![], vec![None, None]);
    let req = call(ident("require", 1, 5), vec![string("x", 13)], sp(5, 17));
    let seq = Expression::Sequence { expressions: vec![req, number(19)], span: sp(5, 20) };
    let paren = Expression::Parenthesized { expression: Box::new(seq), span: sp(4, 21) };
    let outer = call(ident("foo", 0, 0), vec![paren], sp(0, 22));
    let scanner = scan(sem, None, vec![expr_stmt(outer, sp(0, 23))]);
    let r = result(&scanner);
    assert_eq!(r.import_records.len(), 1);
    assert!(!r.import_records[0].meta.is_require_unused);
}

#[test]
fn two_requires_make_two_records() {
    // require("x"); require("x");
    let sem = semantic(vec![], vec![], vec![None, None]);
    let body = vec![
        expr_stmt(call(ident("require", 0, 0), vec![string("x", 8)], sp(0, 12)), sp(0, 13)),
        expr_stmt(call(ident("require", 1, 14), vec![string("x", 22)], sp(14, 26)), sp(14, 27)),
    ];
    let scanner = scan(sem, None, body);
    let r = result(&scanner);
    assert_eq!(r.import_records.len(), 2);
    assert_eq!(r.imports, vec![(sp(0, 12), 0), (sp(14, 26), 1)]);
}

#[test]
fn shadowed_require_makes_no_record() {
    // function require() {} require("x");
    let sem = semantic(vec![0], vec![false], vec![Some(0)]);
    let body = vec![
        Statement::FunctionDeclaration { id: binding("require", 0, 9), params: vec![], body: vec![], span: sp(0, 21) },
        expr_stmt(call(ident("require", 0, 22), vec![string("x", 30)], sp(22, 34)), sp(22, 35)),
    ];
    let scanner = scan(sem, None, body);
    assert!(result(&scanner).import_records.is_empty());
}

#[test]
fn unspanned_require_is_marked_unspanned() {
    let sem = semantic(vec![], vec![], vec![None]);
    let req = call(
        ident("require", 0, 0),
        vec![Expression::StringLiteral { value: "x".to_string(), span: sp(0, 0) }],
        sp(0, 0),
    );
    let scanner = scan(sem, None, vec![expr_stmt(req, sp(0, 0))]);
    let meta = result(&scanner).import_records[0].meta;
    assert!(meta.is_unspanned_import);
    assert!(!meta.is_require_unused);
}

#[test]
fn dynamic_import_of_literal_makes_record() {
    // import("./a");
    let sem = semantic(vec![], vec![], vec![]);
    let imp = Expression::Import { source: Box::new(string("./a", 7)), span: sp(0, 13) };
    let scanner = scan(sem, None, vec![expr_stmt(imp, sp(0, 14))]);
    let r = result(&scanner);
    assert_eq!(r.import_records.len(), 1);
    assert_eq!(r.import_records[0].kind, ImportKind::DynamicImport);
    assert_eq!(r.import_records[0].request, "./a");
    assert!(!r.import_records[0].meta.is_unspanned_import);
    assert!(!r.import_records[0].meta.is_require_unused);
    assert_eq!(r.imports, vec![(sp(0, 13), 0)]);
}

#[test]
fn dynamic_import_unspanned_and_non_literal() {
    let sem = semantic(vec![], vec![], vec![None]);
    let lit = Expression::StringLiteral { value: "./b".to_string(), span: sp(3, 3) };
    let unspanned = Expression::Import { source: Box::new(lit), span: sp(0, 9) };
    let computed = Expression::Import { source: Box::new(ident("name", 0, 20)), span: sp(13, 25) };
    let scanner = scan(sem, None, vec![expr_stmt(unspanned, sp(0, 10)), expr_stmt(computed, sp(13, 26))]);
    let r = result(&scanner);
    assert_eq!(r.import_records.len(), 1);
    assert!(r.import_records[0].meta.is_unspanned_import);
}

fn module_exports_assignment(module_ref: usize, start: u32) -> Statement {
    let target = AssignmentTarget::StaticMember {
        object: Box::new(ident("module", module_ref, start)),
        property: "exports".to_string(),
        span: sp(start, start + 14),
    };
    let value = Expression::Other { operands: vec![], pure: true, span: sp(start + 17, start + 19) };
    expr_stmt(
        Expression::Assignment { left: target, right: Box::new(value), span: sp(start, start + 19) },
        sp(start, start + 20),
    )
}

#[test]
fn module_exports_sets_marker() {
    // module.exports = {};
    let sem = semantic(vec![], vec![], vec![None]);
    let scanner = scan(sem, None, vec![module_exports_assignment(0, 4)]);
    assert_eq!(scanner.cjs_module_ident, Some(sp(4, 10)));
    assert_eq!(scanner.cjs_exports_ident, None);
}

#[test]
fn shadowed_module_sets_no_marker() {
    // const module = {}; module.exports = {};
    let sem = semantic(vec![0], vec![true], vec![Some(0)]);
    let decl = const_decl(
        binding("module", 0, 6),
        Expression::Other { operands: vec![], pure: true, span: sp(15, 17) },
        sp(0, 18),
    );
    let scanner = scan(sem, None, vec![decl, module_exports_assignment(0, 19)]);
    assert_eq!(scanner.cjs_module_ident, None);
}

#[test]
fn first_module_exports_marker_wins() {
    let sem = semantic(vec![], vec![], vec![None, None]);
    let scanner = scan(sem, None, vec![module_exports_assignment(0, 0), module_exports_assignment(1, 30)]);
    assert_eq!(scanner.cjs_module_ident, Some(sp(0, 6)));
}

#[test]
fn exports_property_sets_exports_marker() {
    // exports.foo = 1;
    let sem = semantic(vec![], vec![], vec![None]);
    let target = AssignmentTarget::StaticMember {
        object: Box::new(ident("exports", 0, 0)),
        property: "foo".to_string(),
        span: sp(0, 11),
    };
    let assign = Expression::Assignment { left: target, right: Box::new(number(14)), span: sp(0, 15) };
    let scanner = scan(sem, None, vec![expr_stmt(assign, sp(0, 16))]);
    assert_eq!(scanner.cjs_exports_ident, Some(sp(0, 7)));
    assert_eq!(scanner.cjs_module_ident, None);
}

#[test]
fn module_exports_property_sets_module_marker() {
    // module.exports.foo = 1;
    let sem = semantic(vec![], vec![], vec![None]);
    let inner = Expression::StaticMember {
        object: Box::new(ident("module", 0, 0)),
        property: "exports".to_string(),
        span: sp(0, 14),
    };
    let target = AssignmentTarget::StaticMember { object: Box::new(inner), property: "foo".to_string(), span: sp(0, 18) };
    let assign = Expression::Assignment { left: target, right: Box::new(number(21)), span: sp(0, 22) };
    let scanner = scan(sem, None, vec![expr_stmt(assign, sp(0, 23))]);
    assert_eq!(scanner.cjs_module_ident, Some(sp(0, 6)));
}

fn import_ns() -> Statement {
    // import { ns } from "m";
    Statement::Import {
        specifiers: vec![ImportSpecifier { imported: "ns".to_string(), local: binding("ns", 0, 9) }],
        source: "m".to_string(),
        source_span: sp(19, 22),
        span: sp(0, 23),
    }
}

fn ns_a_b(reference_id: usize, start: u32) -> Expression {
    let ns_a = Expression::StaticMember {
        object: Box::new(ident("ns", reference_id, start)),
        property: "a".to_string(),
        span: sp(start, start + 4),
    };
    Expression::StaticMember { object: Box::new(ns_a), property: "b".to_string(), span: sp(start, start + 6) }
}

#[test]
fn member_path_off_named_import() {
    // import { ns } from "m"; ns.a.b;
    let sem = semantic(vec![0], vec![false], vec![Some(0)]);
    let scanner = scan(sem, None, vec![import_ns(), expr_stmt(ns_a_b(0, 24), sp(24, 31))]);
    let r = result(&scanner);
    assert_eq!(r.import_records.len(), 1);
    assert_eq!(r.import_records[0].kind, ImportKind::StaticImport);
    assert_eq!(r.named_imports.len(), 1);
    assert_eq!(r.named_imports[0].local_symbol, 0);
    assert_eq!(r.named_imports[0].record, 0);
    assert_eq!(r.stmt_infos[0].declared_symbols, vec![0]);
    let refs = &r.stmt_infos[1].referenced_symbols;
    assert_eq!(refs.len(), 1);
    match &refs[0] {
        SymbolRef::MemberExpr { symbol, props, span } => {
            assert_eq!(*symbol, 0);
            assert_eq!(props, &vec!["a".to_string(), "b".to_string()]);
            assert_eq!(*span, sp(24, 30));
        },
        SymbolRef::Symbol(_) => panic!("expected a member path"),
    }
}

#[test]
fn member_path_off_local_is_plain_reference() {
    // const ns = {}; ns.a.b;
    let sem = semantic(vec![0], vec![true], vec![Some(0)]);
    let decl = const_decl(
        binding("ns", 0, 6),
        Expression::Other { operands: vec![], pure: true, span: sp(11, 13) },
        sp(0, 14),
    );
    let scanner = scan(sem, None, vec![decl, expr_stmt(ns_a_b(0, 15), sp(15, 22))]);
    let refs = &result(&scanner).stmt_infos[1].referenced_symbols;
    assert_eq!(refs.len(), 1);
    assert!(matches!(refs[0], SymbolRef::Symbol(0)));
}

#[test]
fn unspanned_member_path_is_plain_reference() {
    let sem = semantic(vec![0], vec![false], vec![Some(0)]);
    let ns_a = Expression::StaticMember {
        object: Box::new(ident("ns", 0, 24)),
        property: "a".to_string(),
        span: sp(0, 0),
    };
    let scanner = scan(sem, None, vec![import_ns(), expr_stmt(ns_a, sp(24, 29))]);
    let refs = &result(&scanner).stmt_infos[1].referenced_symbols;
    assert!(matches!(refs[0], SymbolRef::Symbol(0)));
}

fn top_level_await() -> Statement {
    // await p;
    let awaited = Expression::Await { argument: Box::new(ident("p", 0, 6)), span: sp(0, 7) };
    expr_stmt(awaited, sp(0, 8))
}

#[test]
fn top_level_await_rejected_for_cjs() {
    let sem = semantic(vec![], vec![], vec![None]);
    let scanner = scan(sem, Some(OutputFormat::Cjs), vec![top_level_await()]);
    let r = result(&scanner);
    assert_eq!(r.errors.len(), 1);
    assert!(matches!(r.errors[0].kind, DiagnosticKind::UnsupportedTopLevelAwait(OutputFormat::Cjs)));
    assert_eq!(r.errors[0].span, sp(0, 7));
    assert_eq!(r.errors[0].file_path, "entry.js");
    assert_eq!(r.errors[0].source, "source text");
    assert_eq!(OutputFormat::Cjs.name(), "cjs");
}

#[test]
fn top_level_await_accepted_for_esm() {
    let sem = semantic(vec![], vec![], vec![None]);
    let scanner = scan(sem, Some(OutputFormat::Esm), vec![top_level_await()]);
    assert!(result(&scanner).errors.is_empty());
}

#[test]
fn await_inside_function_is_not_top_level() {
    let sem = semantic(vec![], vec![], vec![None]);
    let awaited = Expression::Await { argument: Box::new(ident("p", 0, 20)), span: sp(14, 21) };
    let f = Statement::FunctionDeclaration {
        id: binding("f", 0, 15),
        params: vec![],
        body: vec![expr_stmt(awaited, sp(14, 22))],
        span: sp(0, 24),
    };
    let scanner = scan(sem, Some(OutputFormat::Iife), vec![f]);
    assert!(result(&scanner).errors.is_empty());
}

#[test]
fn top_level_for_await_rejected_for_iife() {
    let sem = semantic(vec![0], vec![true], vec![None]);
    let left = Expression::Identifier(IdentifierReference { name: "x".to_string(), span: sp(17, 18), reference_id: 1 });
    let stmt = Statement::ForOf {
        is_await: true,
        left,
        right: ident("xs", 0, 22),
        body: Box::new(Statement::Block { body: vec![], span: sp(26, 28) }),
        span: sp(0, 28),
    };
    let scanner = scan(sem, Some(OutputFormat::Iife), vec![stmt]);
    let r = result(&scanner);
    assert_eq!(r.errors.len(), 1);
    assert!(matches!(r.errors[0].kind, DiagnosticKind::UnsupportedTopLevelAwait(OutputFormat::Iife)));
}

#[test]
fn global_eval_sets_flag_and_warns() {
    // eval(x);
    let sem = semantic(vec![], vec![], vec![None, None]);
    let scanner = scan(sem, None, vec![expr_stmt(call(ident("eval", 0, 0), vec![ident("x", 1, 5)], sp(0, 7)), sp(0, 8))]);
    let r = result(&scanner);
    assert!(r.has_eval);
    assert_eq!(r.warnings.len(), 1);
    assert!(matches!(r.warnings[0].kind, DiagnosticKind::Eval));
    assert_eq!(r.warnings[0].span, sp(0, 7));
}

#[test]
fn local_eval_sets_nothing() {
    // function eval() {} eval(x);
    let sem = semantic(vec![0], vec![false], vec![Some(0), None]);
    let body = vec![
        Statement::FunctionDeclaration { id: binding("eval", 0, 9), params: vec![], body: vec![], span: sp(0, 18) },
        expr_stmt(call(ident("eval", 0, 19), vec![ident("x", 1, 24)], sp(19, 26)), sp(19, 27)),
    ];
    let scanner = scan(sem, None, body);
    let r = result(&scanner);
    assert!(!r.has_eval);
    assert!(r.warnings.is_empty());
}

#[test]
fn const_assignment_is_reported() {
    // const a = 1; a = 2;
    let sem = semantic(vec![0], vec![true], vec![Some(0)]);
    let target = AssignmentTarget::Identifier(IdentifierReference { name: "a".to_string(), span: sp(13, 14), reference_id: 0 });
    let assign = Expression::Assignment { left: target, right: Box::new(number(17)), span: sp(13, 18) };
    let scanner = scan(sem, None, vec![const_decl(binding("a", 0, 6), number(10), sp(0, 12)), expr_stmt(assign, sp(13, 19))]);
    let r = result(&scanner);
    assert_eq!(r.errors.len(), 1);
    match &r.errors[0].kind {
        DiagnosticKind::ForbidConstAssign(name) => assert_eq!(name, "a"),
        _ => panic!("expected a const assignment error"),
    }
    assert_eq!(r.errors[0].span, sp(13, 14));
}

#[test]
fn class_referring_to_itself_is_recorded() {
    // class A { m = function () { return A; } }   (A is symbol 0, reference 0)
    let sem = semantic(vec![0], vec![false], vec![Some(0)]);
    let method = Expression::Function {
        params: vec![],
        body: vec![expr_stmt(ident("A", 0, 30), sp(30, 32))],
        span: sp(14, 40),
    };
    let class = Class { id: Some(binding("A", 0, 6)), members: vec![method], span: sp(0, 42) };
    let scanner = scan(sem, None, vec![Statement::ClassDeclaration(class)]);
    let r = result(&scanner);
    assert_eq!(r.self_referenced_class_decl_symbol_ids, vec![0]);
    assert_eq!(r.stmt_infos[0].declared_symbols, vec![0]);
    assert_eq!(scanner.cur_class_decl, None);
}

#[test]
fn class_without_self_reference_is_not_recorded() {
    let sem = semantic(vec![0, 0], vec![false, false], vec![Some(1)]);
    let class = Class { id: Some(binding("A", 0, 6)), members: vec![ident("B", 0, 12)], span: sp(0, 20) };
    let scanner = scan(sem, None, vec![Statement::ClassDeclaration(class)]);
    assert!(result(&scanner).self_referenced_class_decl_symbol_ids.is_empty());
}

#[test]
fn nested_binding_is_not_declared_at_root() {
    // function f(x) {}  — x lives in scope 1
    let sem = semantic(vec![0, 1], vec![false, false], vec![]);
    let f = Statement::FunctionDeclaration {
        id: binding("f", 0, 9),
        params: vec![binding("x", 1, 11)],
        body: vec![],
        span: sp(0, 16),
    };
    let scanner = scan(sem, None, vec![f]);
    assert_eq!(result(&scanner).stmt_infos[0].declared_symbols, vec![0]);
}
