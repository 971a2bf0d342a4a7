use vstd::prelude::*;
use crate::span::Span;

verus! {

/// The kind of an ancestor node on the visit path, as far as the analysis of
/// `require` calls needs it.
#[derive(Clone, Copy, Debug, PartialEq, Eq, Structural)]
pub enum Ancestor {
    ExpressionStatement,
    Parenthesized,
    /// A sequence expression, with the span of its last operand.
    Sequence(Span),
    Other,
}

/// Whether a `require` call with span `call`, whose enclosing nodes are
/// `path[0..i]` (innermost last), has a result that is thrown away.
/// A sequence whose last operand has a span and contains the call passes the
/// value on, and the walk stops there with the call used; any other sequence
/// drops it, and the walk goes on outward. Any other node takes the value, and
/// the walk stops there with the call used.
pub open spec fn require_unused_from(path: Seq<Ancestor>, i: int, call: Span) -> bool
    decreases i,
{
    if i <= 0 {
        false
    } else {
        match path[i - 1] {
            Ancestor::Parenthesized => require_unused_from(path, i - 1, call),
            Ancestor::ExpressionStatement => true,
            Ancestor::Sequence(last) => if !last.spec_is_empty() && last.spec_contains_inclusive(call) {
                false
            } else {
                require_unused_from(path, i - 1, call)
            },
            Ancestor::Other => false,
        }
    }
}

pub open spec fn require_unused(path: Seq<Ancestor>, call: Span) -> bool {
    require_unused_from(path, path.len() as int, call)
}

/// A `require` call in a parenthesized sequence is used when it lies in the
/// sequence's last operand, whatever encloses the sequence; when it lies in
/// another operand and the sequence stands as a statement, it is unused.
pub proof fn lemma_require_in_sequence(outer: Seq<Ancestor>, last: Span, call: Span)
    requires
        !last.spec_is_empty(),
    ensures
        !last.spec_contains_inclusive(call) ==> require_unused(
            outer.push(Ancestor::ExpressionStatement).push(Ancestor::Parenthesized).push(Ancestor::Sequence(last)),
            call,
        ),
        last.spec_contains_inclusive(call) ==> !require_unused(
            outer.push(Ancestor::Parenthesized).push(Ancestor::Sequence(last)),
            call,
        ),
{
    let unused_path = outer.push(Ancestor::ExpressionStatement).push(Ancestor::Parenthesized).push(Ancestor::Sequence(last));
    let used_path = outer.push(Ancestor::Parenthesized).push(Ancestor::Sequence(last));
    let n = outer.len() as int;
    assert(unused_path[n + 2] == Ancestor::Sequence(last));
    assert(unused_path[n + 1] == Ancestor::Parenthesized);
    assert(unused_path[n] == Ancestor::ExpressionStatement);
    assert(used_path[n + 1] == Ancestor::Sequence(last));
    reveal_with_fuel(require_unused_from, 4);
}

/// Walks the ancestors of a `require` call from the innermost outwards and
/// decides whether the value of the call is discarded: it is when an
/// expression statement is reached through parentheses and through sequence
/// operands that are not the last of their sequence. The last operand of a
/// sequence, or any other enclosing node, makes the call used.
pub fn is_require_unused(path: &Vec<Ancestor>, call: Span) -> (r: bool)
    ensures
        r == require_unused(path@, call),
{
    let mut i: usize = path.len();
    while i > 0
        invariant
            i <= path@.len(),
            require_unused(path@, call) == require_unused_from(path@, i as int, call),
        decreases i,
    {
        match path[i - 1] {
            Ancestor::Parenthesized => {},
            Ancestor::ExpressionStatement => {
                return true;
            },
            Ancestor::Sequence(last) => {
                if !last.is_empty() && last.contains_inclusive(call) {
                    return false;
                }
            },
            Ancestor::Other => {
                return false;
            },
        }
        i = i - 1;
    }
    false
}

} // verus!
