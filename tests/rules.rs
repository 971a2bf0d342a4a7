use ast_scan::preprocess::{transform_errors, ParseType, PipelineOptions, PreProcessEcmaAst, Severity, Stage, Stats};
use ast_scan::require_usage::{is_require_unused, Ancestor};
use ast_scan::semantic::Semantic;
use ast_scan::side_effect::has_side_effect;
use ast_scan::span::Span;
use ast_scan::span_uniqueness::ensure_span_uniqueness;
use ast_scan::ast::{Expression, IdentifierReference, Statement};
use ast_scan::types::OutputFormat;

fn sp(start: u32, end: u32) -> Span {
    Span::new(start, end)
}

#[test]
fn require_walk_stops_at_expression_statement() {
    let path = vec![Ancestor::Other, Ancestor::ExpressionStatement, Ancestor::Parenthesized];
    assert!(is_require_unused(&path, sp(1, 10)));
}

#[test]
fn require_walk_stops_at_last_operand_of_sequence() {
    let path = vec![Ancestor::ExpressionStatement, Ancestor::Parenthesized, Ancestor::Sequence(sp(4, 16))];
    assert!(!is_require_unused(&path, sp(4, 16)));
}

#[test]
fn require_walk_stops_at_other_when_used() {
    let path = vec![Ancestor::ExpressionStatement, Ancestor::Other];
    assert!(!is_require_unused(&path, sp(1, 10)));
}

#[test]
fn require_walk_stops_at_other_after_dropped_sequence() {
    // foo((require("x"), 1)); the argument position takes the sequence's value
    let path = vec![Ancestor::ExpressionStatement, Ancestor::Other, Ancestor::Parenthesized, Ancestor::Sequence(sp(20, 25))];
    assert!(!is_require_unused(&path, sp(1, 10)));
}

#[test]
fn require_walk_with_empty_spans_counts_as_used() {
    let path = vec![Ancestor::Other, Ancestor::Sequence(sp(5, 5))];
    assert!(!is_require_unused(&path, sp(1, 10)));
    assert!(!is_require_unused(&vec![], sp(1, 10)));
}

#[test]
fn span_uniqueness_replaces_repeats() {
    let mut spans = vec![sp(0, 5), sp(2, 3), sp(0, 5), sp(0, 0), sp(0, 0), sp(2, 3)];
    ensure_span_uniqueness(&mut spans);
    assert_eq!(spans, vec![sp(0, 5), sp(2, 3), sp(6, 6), sp(0, 0), sp(7, 7), sp(8, 8)]);
    for i in 0..spans.len() {
        for j in i + 1..spans.len() {
            assert_ne!(spans[i], spans[j]);
        }
    }
}

#[test]
fn span_uniqueness_keeps_distinct_and_empty() {
    let mut spans = vec![sp(1, 2), sp(3, 4)];
    ensure_span_uniqueness(&mut spans);
    assert_eq!(spans, vec![sp(1, 2), sp(3, 4)]);
    let mut none: Vec<Span> = vec![];
    ensure_span_uniqueness(&mut none);
    assert!(none.is_empty());
}

#[test]
fn plain_pipeline_twice_is_idempotent() {
    let o = PipelineOptions { has_global_defines: false, has_inject: false, treeshake: false };
    let mut first = PreProcessEcmaAst::default();
    let mut second = PreProcessEcmaAst::default();
    let plan1 = first.build(ParseType::Js, o);
    let plan2 = second.build(ParseType::Js, o);
    assert_eq!(plan1, plan2);
    assert_eq!(plan1, vec![Stage::BuildSemantic, Stage::TweakForScanning, Stage::EnsureSpanUniqueness, Stage::FinalSemantic]);
    assert!(!first.ast_changed);
    let mut spans = vec![sp(0, 9), sp(0, 9), sp(4, 6)];
    ensure_span_uniqueness(&mut spans);
    let once = spans.clone();
    ensure_span_uniqueness(&mut spans);
    assert_eq!(spans, once);
}

#[test]
fn typescript_with_treeshake_rebuilds_before_compress() {
    let o = PipelineOptions { has_global_defines: true, has_inject: false, treeshake: true };
    let mut p = PreProcessEcmaAst::default();
    let plan = p.build(ParseType::Tsx, o);
    assert_eq!(
        plan,
        vec![
            Stage::BuildSemantic,
            Stage::Transform { jsx: true },
            Stage::ReplaceGlobalDefines,
            Stage::RebuildSemantic,
            Stage::Compress,
            Stage::TweakForScanning,
            Stage::EnsureSpanUniqueness,
            Stage::FinalSemantic,
        ]
    );
    assert!(p.ast_changed);
}

#[test]
fn plain_treeshake_compresses_without_rebuild() {
    let o = PipelineOptions { has_global_defines: false, has_inject: false, treeshake: true };
    let mut p = PreProcessEcmaAst::default();
    let plan = p.build(ParseType::Js, o);
    assert_eq!(plan[1], Stage::Compress);
    let mut q = PreProcessEcmaAst::default();
    let ts = q.build(ParseType::Ts, PipelineOptions { has_global_defines: false, has_inject: true, treeshake: false });
    assert_eq!(ts[1], Stage::Transform { jsx: false });
    assert_eq!(ts[2], Stage::InjectGlobalVariables);
}

#[test]
fn stats_are_kept() {
    let mut p = PreProcessEcmaAst::default();
    let stats = Stats { nodes: 10, scopes: 2, symbols: 3, references: 4 };
    p.record_stats(stats);
    assert_eq!(p.stats, stats);
}

#[test]
fn transform_errors_keep_only_errors() {
    let s = vec![Severity::Warning, Severity::Error, Severity::Advice, Severity::Error];
    assert_eq!(transform_errors(&s), vec![1, 3]);
    assert!(transform_errors(&vec![Severity::Warning]).is_empty());
}

#[test]
fn side_effect_classification_table() {
    let sem = Semantic { root_scope: 0, symbol_scopes: vec![0], symbol_is_const: vec![false], reference_symbols: vec![Some(0), None] };
    let bound = Expression::Identifier(IdentifierReference { name: "a".to_string(), span: sp(0, 1), reference_id: 0 });
    let global = Expression::Identifier(IdentifierReference { name: "g".to_string(), span: sp(0, 1), reference_id: 1 });
    assert!(!has_side_effect(&sem, &Statement::Expression { expression: bound, span: sp(0, 2) }));
    assert!(has_side_effect(&sem, &Statement::Expression { expression: global, span: sp(0, 2) }));
    let impure_op = Expression::Other { operands: vec![], pure: false, span: sp(0, 1) };
    assert!(has_side_effect(&sem, &Statement::Expression { expression: impure_op, span: sp(0, 2) }));
    let block = Statement::Block { body: vec![], span: sp(0, 2) };
    assert!(!has_side_effect(&sem, &block));
}

#[test]
fn esm_and_app_keep_esm_syntax() {
    assert!(OutputFormat::Esm.keep_esm_import_export_syntax());
    assert!(OutputFormat::App.keep_esm_import_export_syntax());
    assert!(!OutputFormat::Umd.keep_esm_import_export_syntax());
    assert_eq!(OutputFormat::Umd.name(), "umd");
}
