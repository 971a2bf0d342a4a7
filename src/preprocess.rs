use vstd::prelude::*;
use crate::span::Span;
use crate::span_uniqueness::{lemma_span_uniqueness_idempotent, normalized};

verus! {

/// The syntax a module was parsed with.
#[derive(Clone, Copy, Debug, PartialEq, Eq, Structural)]
pub enum ParseType {
    Js,
    Jsx,
    Ts,
    Tsx,
}

/// A stage of the preprocessing pipeline.
#[derive(Clone, Copy, Debug, PartialEq, Eq, Structural)]
pub enum Stage {
    /// Build symbol and scope data from the parsed tree.
    BuildSemantic,
    /// Lower TypeScript and JSX; `jsx` turns the JSX plugin on.
    Transform { jsx: bool },
    ReplaceGlobalDefines,
    InjectGlobalVariables,
    /// Build symbol and scope data again from the changed tree.
    RebuildSemantic,
    /// Dead-code elimination.
    Compress,
    TweakForScanning,
    EnsureSpanUniqueness,
    /// Build the symbol and scope data handed to the scanner, with each
    /// scope's children indexed.
    FinalSemantic,
}

/// The severity of a diagnostic of the syntax transform.
#[derive(Clone, Copy, Debug, PartialEq, Eq, Structural)]
pub enum Severity {
    Error,
    Warning,
    Advice,
}

/// Sizes of the semantic data of the first build, kept as a hint for the
/// later ones.
#[derive(Clone, Copy, Debug, PartialEq, Eq, Structural, Default)]
pub struct Stats {
    pub nodes: u32,
    pub scopes: u32,
    pub symbols: u32,
    pub references: u32,
}

/// The configuration that decides which stages run.
#[derive(Clone, Copy, Debug, PartialEq, Eq, Structural)]
pub struct PipelineOptions {
    pub has_global_defines: bool,
    pub has_inject: bool,
    pub treeshake: bool,
}

pub open spec fn lowers(parse_type: ParseType) -> bool {
    !(parse_type is Js)
}

pub open spec fn mutates_before_compress(parse_type: ParseType, o: PipelineOptions) -> bool {
    lowers(parse_type) || o.has_global_defines || o.has_inject
}

/// The stages that run, in order.
pub open spec fn plan(parse_type: ParseType, o: PipelineOptions, changed: bool) -> Seq<Stage> {
    plan_head(parse_type, o) + (if o.treeshake {
        if changed || mutates_before_compress(parse_type, o) {
            seq![Stage::RebuildSemantic, Stage::Compress]
        } else {
            seq![Stage::Compress]
        }
    } else {
        seq![]
    }) + seq![Stage::TweakForScanning, Stage::EnsureSpanUniqueness, Stage::FinalSemantic]
}

/// The stages before dead-code elimination.
pub open spec fn plan_head(parse_type: ParseType, o: PipelineOptions) -> Seq<Stage> {
    seq![Stage::BuildSemantic]
        + (if lowers(parse_type) {
        seq![Stage::Transform { jsx: parse_type is Jsx || parse_type is Tsx }]
    } else {
        seq![]
    }) + (if o.has_global_defines {
        seq![Stage::ReplaceGlobalDefines]
    } else {
        seq![]
    }) + (if o.has_inject {
        seq![Stage::InjectGlobalVariables]
    } else {
        seq![]
    })
}

/// The state of the semantic data between stages: `usable` when a transform
/// may take it (it belongs to the tree or was handed on by the stage that
/// changed it), `exact` when it was built from the tree as it now stands.
pub struct DataState {
    pub usable: bool,
    pub exact: bool,
}

/// Runs a plan's stages over the state of the semantic data; none when a stage
/// would read data it cannot take.
pub open spec fn run_from(stages: Seq<Stage>, usable: bool, exact: bool) -> Option<DataState>
    decreases stages.len(),
{
    if stages.len() == 0 {
        Some(DataState { usable, exact })
    } else {
        let rest = stages.drop_first();
        match stages[0] {
            Stage::BuildSemantic | Stage::RebuildSemantic | Stage::FinalSemantic => run_from(rest, true, true),
            Stage::Transform { .. } | Stage::ReplaceGlobalDefines | Stage::InjectGlobalVariables =>
                if usable {
                    run_from(rest, true, false)
                } else {
                    None
                },
            Stage::Compress => if exact {
                run_from(rest, false, false)
            } else {
                None
            },
            Stage::TweakForScanning | Stage::EnsureSpanUniqueness => run_from(rest, false, false),
        }
    }
}

proof fn lemma_run_concat(a: Seq<Stage>, b: Seq<Stage>, usable: bool, exact: bool)
    ensures
        run_from(a + b, usable, exact) == match run_from(a, usable, exact) {
            Some(st) => run_from(b, st.usable, st.exact),
            None => None,
        },
    decreases a.len(),
{
    if a.len() > 0 {
        assert((a + b).drop_first() =~= a.drop_first() + b);
        assert((a + b)[0] == a[0]);
        lemma_run_concat(a.drop_first(), b, true, true);
        lemma_run_concat(a.drop_first(), b, true, false);
        lemma_run_concat(a.drop_first(), b, false, false);
    } else {
        assert(a + b =~= b);
    }
}

proof fn lemma_run_one(st: Stage, usable: bool, exact: bool)
    ensures
        run_from(seq![st], usable, exact) == match st {
            Stage::BuildSemantic | Stage::RebuildSemantic | Stage::FinalSemantic => Some(DataState { usable: true, exact: true }),
            Stage::Transform { .. } | Stage::ReplaceGlobalDefines | Stage::InjectGlobalVariables =>
                if usable {
                    Some(DataState { usable: true, exact: false })
                } else {
                    None
                },
            Stage::Compress => if exact {
                Some(DataState { usable: false, exact: false })
            } else {
                None
            },
            Stage::TweakForScanning | Stage::EnsureSpanUniqueness => Some(DataState { usable: false, exact: false }),
        },
{
    reveal_with_fuel(run_from, 2);
    assert(seq![st].drop_first() =~= Seq::<Stage>::empty());
    assert(seq![st][0] == st);
}

/// No stage of a plan reads stale semantic data: every transform takes data
/// that belongs to the tree or was handed on by the stage that changed it,
/// dead-code elimination takes data built from the tree as it stands, and the
/// data that the plan ends with was built from the final tree.
pub proof fn lemma_plan_reads_no_stale_data(parse_type: ParseType, o: PipelineOptions, changed: bool)
    ensures
        run_from(plan(parse_type, o, changed), false, false) == Some(DataState { usable: true, exact: true }),
        plan(parse_type, o, changed).last() == Stage::FinalSemantic,
{
    let build = seq![Stage::BuildSemantic];
    let lower = if lowers(parse_type) {
        seq![Stage::Transform { jsx: parse_type is Jsx || parse_type is Tsx }]
    } else {
        seq![]
    };
    let define = if o.has_global_defines { seq![Stage::ReplaceGlobalDefines] } else { seq![] };
    let inject = if o.has_inject { seq![Stage::InjectGlobalVariables] } else { seq![] };
    let rebuild = if o.treeshake && (changed || mutates_before_compress(parse_type, o)) {
        seq![Stage::RebuildSemantic]
    } else {
        seq![]
    };
    let compress = if o.treeshake { seq![Stage::Compress] } else { seq![] };
    let tweak = seq![Stage::TweakForScanning];
    let unique = seq![Stage::EnsureSpanUniqueness];
    let fin = seq![Stage::FinalSemantic];
    let p = plan(parse_type, o, changed);
    assert(p =~= build + lower + define + inject + rebuild + compress + tweak + unique + fin);
    lemma_run_one(Stage::BuildSemantic, false, false);
    lemma_run_one(Stage::Transform { jsx: parse_type is Jsx || parse_type is Tsx }, true, true);
    lemma_run_one(Stage::ReplaceGlobalDefines, true, true);
    lemma_run_one(Stage::ReplaceGlobalDefines, true, false);
    lemma_run_one(Stage::InjectGlobalVariables, true, true);
    lemma_run_one(Stage::InjectGlobalVariables, true, false);
    lemma_run_one(Stage::RebuildSemantic, true, false);
    lemma_run_one(Stage::Compress, true, true);
    lemma_run_one(Stage::TweakForScanning, true, true);
    lemma_run_one(Stage::TweakForScanning, true, false);
    lemma_run_one(Stage::TweakForScanning, false, false);
    lemma_run_one(Stage::EnsureSpanUniqueness, false, false);
    lemma_run_one(Stage::FinalSemantic, false, false);
    reveal_with_fuel(run_from, 1);
    assert(run_from(Seq::<Stage>::empty(), true, true) == Some(DataState { usable: true, exact: true }));
    assert(run_from(Seq::<Stage>::empty(), true, false) == Some(DataState { usable: true, exact: false }));
    lemma_run_concat(build, lower, false, false);
    lemma_run_concat(build + lower, define, false, false);
    lemma_run_concat(build + lower + define, inject, false, false);
    lemma_run_concat(build + lower + define + inject, rebuild, false, false);
    lemma_run_concat(build + lower + define + inject + rebuild, compress, false, false);
    lemma_run_concat(build + lower + define + inject + rebuild + compress, tweak, false, false);
    lemma_run_concat(build + lower + define + inject + rebuild + compress + tweak, unique, false, false);
    lemma_run_concat(build + lower + define + inject + rebuild + compress + tweak + unique, fin, false, false);
}

/// With plain JavaScript, no defines, no injection and no tree-shaking, the
/// pipeline is idempotent: a second run makes the same decisions, and its
/// only change to what the first run left, span uniqueness, changes nothing.
pub proof fn lemma_plain_pipeline_idempotent(
    o: PipelineOptions,
    first_changed: bool,
    second_changed: bool,
    spans: Seq<Span>,
    once: Seq<Span>,
    twice: Seq<Span>,
)
    requires
        !o.has_global_defines,
        !o.has_inject,
        !o.treeshake,
        normalized(spans, once),
        normalized(once, twice),
    ensures
        plan(ParseType::Js, o, first_changed) == plan(ParseType::Js, o, second_changed),
        plan(ParseType::Js, o, first_changed) == seq![
            Stage::BuildSemantic,
            Stage::TweakForScanning,
            Stage::EnsureSpanUniqueness,
            Stage::FinalSemantic,
        ],
        twice == once,
{
    assert(plan(ParseType::Js, o, first_changed) =~= seq![
        Stage::BuildSemantic,
        Stage::TweakForScanning,
        Stage::EnsureSpanUniqueness,
        Stage::FinalSemantic,
    ]);
    assert(plan(ParseType::Js, o, second_changed) =~= plan(ParseType::Js, o, first_changed));
    lemma_span_uniqueness_idempotent(spans, once, twice);
}

/// The decisions of one preprocessing run, and the statistics of its first
/// semantic build.
#[derive(Default)]
pub struct PreProcessEcmaAst {
    pub ast_changed: bool,
    pub stats: Stats,
}

impl PreProcessEcmaAst {
    /// Decides the stages for a module: the first semantic build; lowering
    /// for TypeScript and JSX; define replacement and global injection where
    /// configured; with tree-shaking, dead-code elimination, after a fresh
    /// build where an earlier stage changed the tree; then the tweaks for
    /// scanning, span uniqueness, and the final build.
    pub fn build(&mut self, parse_type: ParseType, options: PipelineOptions) -> (r: Vec<Stage>)
        ensures
            r@ == plan(parse_type, options, old(self).ast_changed),
            final(self).ast_changed == (old(self).ast_changed || mutates_before_compress(parse_type, options)),
            final(self).stats == old(self).stats,
    {
        let mut stages: Vec<Stage> = Vec::new();
        stages.push(Stage::BuildSemantic);
        match parse_type {
            ParseType::Js => {},
            _ => {
                let jsx = match parse_type {
                    ParseType::Jsx | ParseType::Tsx => true,
                    _ => false,
                };
                stages.push(Stage::Transform { jsx });
                self.ast_changed = true;
            },
        }
        if options.has_global_defines {
            stages.push(Stage::ReplaceGlobalDefines);
            self.ast_changed = true;
        }
        if options.has_inject {
            stages.push(Stage::InjectGlobalVariables);
            self.ast_changed = true;
        }
        assert(stages@ =~= plan_head(parse_type, options));
        if options.treeshake {
            if self.ast_changed {
                stages.push(Stage::RebuildSemantic);
            }
            stages.push(Stage::Compress);
        }
        stages.push(Stage::TweakForScanning);
        stages.push(Stage::EnsureSpanUniqueness);
        stages.push(Stage::FinalSemantic);
        assert(stages@ =~= plan(parse_type, options, old(self).ast_changed));
        stages
    }

    /// Keeps the statistics of the first semantic build.
    pub fn record_stats(&mut self, stats: Stats)
        ensures
            final(self).stats == stats,
            final(self).ast_changed == old(self).ast_changed,
    {
        self.stats = stats;
    }
}

/// The positions of the error-severity diagnostics, in order.
pub open spec fn error_positions(s: Seq<Severity>) -> Seq<usize>
    decreases s.len(),
{
    if s.len() == 0 {
        seq![]
    } else if s.last() is Error {
        error_positions(s.drop_last()).push((s.len() - 1) as usize)
    } else {
        error_positions(s.drop_last())
    }
}

/// Picks out the diagnostics of the syntax transform that fail the build:
/// those of error severity. The build fails exactly when there is one.
pub fn transform_errors(severities: &Vec<Severity>) -> (r: Vec<usize>)
    ensures
        r@ == error_positions(severities@),
{
    let mut r: Vec<usize> = Vec::new();
    let mut i: usize = 0;
    while i < severities.len()
        invariant
            i <= severities@.len(),
            r@ == error_positions(severities@.subrange(0, i as int)),
        decreases severities@.len() - i,
    {
        assert(severities@.subrange(0, i as int + 1).drop_last() =~= severities@.subrange(0, i as int));
        if let Severity::Error = severities[i] {
            r.push(i);
        }
        i = i + 1;
    }
    assert(severities@.subrange(0, i as int) =~= severities@);
    r
}

} // verus!
