use vstd::prelude::*;
use crate::ast::{AssignmentTarget, Expression};
use crate::require_usage::{is_require_unused, require_unused, Ancestor};
use crate::semantic::Semantic;
use crate::span::Span;
use crate::types::{ImportRecordMeta, OutputFormat};

verus! {

pub fn name_is(name: &String, lit: &str) -> (r: bool)
    ensures
        r == (name@ == lit@),
{
    let owned = lit.to_owned();
    *name == owned
}

/// The root reference and the property names of a chain of static property
/// reads `root.p1.p2...pn`, given its outermost object and property: the
/// names in source order. None when the chain is not rooted at a name.
pub open spec fn static_chain(object: Expression, property: String) -> Option<(usize, Seq<String>)>
    decreases object,
{
    match object {
        Expression::Identifier(id) => Some((id.reference_id, seq![property])),
        Expression::StaticMember { object: inner, property: p, .. } => match static_chain(*inner, p) {
            Some((r, props)) => Some((r, props.push(property))),
            None => None,
        },
        _ => None,
    }
}

/// Flattens `root.p1.p2...pn` into the reference of `root` and `[p1, ..., pn]`.
pub fn member_chain(object: &Expression, property: &String) -> (r: Option<(usize, Vec<String>)>)
    ensures
        match r {
            Some((rid, props)) => static_chain(*object, *property) == Some((rid, props@)),
            None => static_chain(*object, *property) is None,
        },
    decreases object,
{
    match object {
        Expression::Identifier(id) => {
            let mut props: Vec<String> = Vec::new();
            props.push(property.clone());
            assert(props@ =~= seq![*property]);
            Some((id.reference_id, props))
        },
        Expression::StaticMember { object: inner, property: p, .. } => match member_chain(inner, p) {
            Some((rid, props)) => {
                let mut props = props;
                props.push(property.clone());
                Some((rid, props))
            },
            None => None,
        },
        _ => None,
    }
}

pub open spec fn saturating_offset(start: u32, len: u32) -> u32 {
    if start + len <= u32::MAX {
        (start + len) as u32
    } else {
        u32::MAX
    }
}

/// The span of the first `len` characters from `start`.
pub fn prefix_span(start: u32, len: u32) -> (r: Span)
    ensures
        r.start == start,
        r.end == saturating_offset(start, len),
{
    if start <= u32::MAX - len {
        Span::new(start, start + len)
    } else {
        Span::new(start, u32::MAX)
    }
}

/// Whether `id` is the unshadowed global `name`.
pub open spec fn is_global_named(sem: Semantic, object: Expression, name: Seq<char>) -> bool {
    object matches Expression::Identifier(id) && id.name@ == name && sem.resolved(id.reference_id) is None
}

/// The CommonJS markers an assignment target gives: the span of `module` in
/// `module.exports = ...` or `module.exports.x = ...`, and the span of
/// `exports` in `exports.x = ...`, where the name is an unshadowed global.
pub open spec fn cjs_markers(sem: Semantic, target: AssignmentTarget) -> (Option<Span>, Option<Span>) {
    match target {
        AssignmentTarget::StaticMember { object, property, .. } => match *object {
            Expression::Identifier(id) => (
                if is_global_named(sem, *object, "module"@) && property@ == "exports"@ {
                    Some(Span { start: id.span.start, end: saturating_offset(id.span.start, 6) })
                } else {
                    None
                },
                if is_global_named(sem, *object, "exports"@) {
                    Some(Span { start: id.span.start, end: saturating_offset(id.span.start, 7) })
                } else {
                    None
                },
            ),
            Expression::StaticMember { object: inner, property: p, .. } => (
                match *inner {
                    Expression::Identifier(id) => if is_global_named(sem, *inner, "module"@) && p@
                        == "exports"@ {
                        Some(Span { start: id.span.start, end: saturating_offset(id.span.start, 6) })
                    } else {
                        None
                    },
                    _ => None,
                },
                None,
            ),
            _ => (None, None),
        },
        _ => (None, None),
    }
}

pub fn cjs_markers_of(sem: &Semantic, target: &AssignmentTarget) -> (r: (Option<Span>, Option<Span>))
    ensures
        r == cjs_markers(*sem, *target),
{
    match target {
        AssignmentTarget::StaticMember { object, property, .. } => match &**object {
            Expression::Identifier(id) => {
                let global = sem.is_global_reference(id.reference_id);
                let module = if global && name_is(&id.name, "module") && name_is(property, "exports") {
                    Some(prefix_span(id.span.start, 6))
                } else {
                    None
                };
                let exports = if global && name_is(&id.name, "exports") {
                    Some(prefix_span(id.span.start, 7))
                } else {
                    None
                };
                (module, exports)
            },
            Expression::StaticMember { object: inner, property: p, .. } => match &**inner {
                Expression::Identifier(id) => {
                    if sem.is_global_reference(id.reference_id) && name_is(&id.name, "module") && name_is(
                        p,
                        "exports",
                    ) {
                        (Some(prefix_span(id.span.start, 6)), None)
                    } else {
                        (None, None)
                    }
                },
                _ => (None, None),
            },
            _ => (None, None),
        },
        _ => (None, None),
    }
}

/// Whether a callee is the unshadowed global `eval`.
pub fn is_global_eval(sem: &Semantic, callee: &Expression) -> (r: bool)
    ensures
        r == is_global_named(*sem, *callee, "eval"@),
{
    match callee {
        Expression::Identifier(id) => sem.is_global_reference(id.reference_id) && name_is(&id.name, "eval"),
        _ => false,
    }
}

/// Whether a call is `require(x)` with the unshadowed global `require` and one
/// argument.
pub open spec fn global_require_call(sem: Semantic, callee: Expression, arguments: Seq<Expression>) -> bool {
    is_global_named(sem, callee, "require"@) && arguments.len() == 1
}

pub fn is_global_require_call(sem: &Semantic, callee: &Expression, arguments: &Vec<Expression>) -> (r: bool)
    ensures
        r == global_require_call(*sem, *callee, arguments@),
{
    match callee {
        Expression::Identifier(id) => arguments.len() == 1 && sem.is_global_reference(id.reference_id)
            && name_is(&id.name, "require"),
        _ => false,
    }
}

/// The flags of the record of a `require` call: an unspanned request is
/// marked so; otherwise the call is marked unused when its ancestors discard
/// its value.
pub fn require_meta(path: &Vec<Ancestor>, call: Span, request: Span) -> (r: ImportRecordMeta)
    ensures
        r.is_unspanned_import == request.spec_is_empty(),
        r.is_require_unused == (!request.spec_is_empty() && require_unused(path@, call)),
{
    if request.is_empty() {
        ImportRecordMeta { is_unspanned_import: true, is_require_unused: false }
    } else {
        ImportRecordMeta { is_unspanned_import: false, is_require_unused: is_require_unused(path, call) }
    }
}

/// The flags of the record of an `import()` expression.
pub fn dynamic_import_meta(request: Span) -> (r: ImportRecordMeta)
    ensures
        r.is_unspanned_import == request.spec_is_empty(),
        !r.is_require_unused,
{
    ImportRecordMeta { is_unspanned_import: request.is_empty(), is_require_unused: false }
}

pub open spec fn await_rejected(format: Option<OutputFormat>, top_level: bool) -> bool {
    top_level && match format {
        Some(f) => !f.spec_keeps_esm_syntax(),
        None => false,
    }
}

/// Whether top-level `await` is an error: at the top level, under a configured
/// format that does not keep ESM syntax.
pub fn top_level_await_rejected(format: Option<OutputFormat>, top_level: bool) -> (r: bool)
    ensures
        r == await_rejected(format, top_level),
{
    top_level && match format {
        Some(f) => !f.keep_esm_import_export_syntax(),
        None => false,
    }
}

} // verus!
