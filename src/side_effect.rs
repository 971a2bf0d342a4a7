use vstd::prelude::*;
use crate::ast::{Expression, Statement};
use crate::semantic::Semantic;

verus! {

broadcast use vstd::std_specs::vec::group_vec_axioms;

/// Whether evaluating an expression is known to have no observable effect.
/// Reading a name is pure only when the name is bound in the module (reading
/// an undeclared global may throw).
pub open spec fn pure_expression(sem: Semantic, e: Expression) -> bool
    decreases e,
{
    match e {
        Expression::Identifier(id) => sem.resolved(id.reference_id) is Some,
        Expression::StringLiteral { .. } => true,
        Expression::Function { .. } => true,
        Expression::Parenthesized { expression, .. } => pure_expression(sem, *expression),
        Expression::Sequence { expressions, .. } =>
            forall|i: int| 0 <= i < expressions@.len() ==> pure_expression(sem, #[trigger] expressions@[i]),
        Expression::Other { operands, pure, .. } =>
            pure && forall|i: int| 0 <= i < operands@.len() ==> pure_expression(sem, #[trigger] operands@[i]),
        _ => false,
    }
}


pub open spec fn pure_statement(sem: Semantic, s: Statement) -> bool
    decreases s,
{
    match s {
        Statement::Expression { expression, .. } => pure_expression(sem, expression),
        Statement::VariableDeclaration { declarations, .. } =>
            forall|i: int| 0 <= i < declarations@.len() ==> match #[trigger] declarations@[i].init {
                Some(init) => pure_expression(sem, init),
                None => true,
            },
        Statement::FunctionDeclaration { .. } => true,
        Statement::ClassDeclaration(class) =>
            forall|i: int| 0 <= i < class.members@.len() ==> pure_expression(sem, #[trigger] class.members@[i]),
        Statement::Import { .. } => true,
        Statement::ForOf { .. } | Statement::Other { .. } => false,
        Statement::Block { body, .. } =>
            forall|i: int| 0 <= i < body@.len() ==> pure_statement(sem, #[trigger] body@[i]),
    }
}

/// Whether evaluating an expression runs a call, an assignment, an `await`,
/// an `import()` or a property read. A function expression runs nothing of
/// its body.
pub open spec fn runs_effect(e: Expression) -> bool
    decreases e,
{
    match e {
        Expression::Identifier(_) | Expression::StringLiteral { .. } | Expression::Function { .. } => false,
        Expression::Parenthesized { expression, .. } => runs_effect(*expression),
        Expression::Sequence { expressions, .. } =>
            exists|i: int| 0 <= i < expressions@.len() && runs_effect(#[trigger] expressions@[i]),
        Expression::Other { operands, .. } =>
            exists|i: int| 0 <= i < operands@.len() && runs_effect(#[trigger] operands@[i]),
        _ => true,
    }
}

/// An expression classified pure runs no call, assignment, `await`,
/// `import()` or property read.
pub proof fn lemma_pure_expression_runs_no_effect(sem: Semantic, e: Expression)
    requires
        pure_expression(sem, e),
    ensures
        !runs_effect(e),
    decreases e,
{
    match e {
        Expression::Parenthesized { expression, .. } => lemma_pure_expression_runs_no_effect(sem, *expression),
        Expression::Sequence { expressions, .. } => {
            assert forall|i: int| 0 <= i < expressions@.len() implies !runs_effect(#[trigger] expressions@[i]) by {
                lemma_pure_expression_runs_no_effect(sem, expressions@[i]);
            }
        },
        Expression::Other { operands, .. } => {
            assert forall|i: int| 0 <= i < operands@.len() implies !runs_effect(#[trigger] operands@[i]) by {
                lemma_pure_expression_runs_no_effect(sem, operands@[i]);
            }
        },
        _ => {},
    }
}

/// A top-level statement classified free of side effects runs no call,
/// assignment, `await`, `import()` or property read when it is evaluated:
/// its expression, its initializers, its class members and the statements of
/// its block run none.
pub proof fn lemma_pure_statement_runs_no_effect(sem: Semantic, s: Statement)
    requires
        pure_statement(sem, s),
    ensures
        match s {
            Statement::Expression { expression, .. } => !runs_effect(expression),
            Statement::VariableDeclaration { declarations, .. } =>
                forall|i: int| 0 <= i < declarations@.len() ==> match #[trigger] declarations@[i].init {
                    Some(init) => !runs_effect(init),
                    None => true,
                },
            Statement::ClassDeclaration(class) =>
                forall|i: int| 0 <= i < class.members@.len() ==> !runs_effect(#[trigger] class.members@[i]),
            Statement::ForOf { .. } | Statement::Other { .. } => false,
            _ => true,
        },
{
    match s {
        Statement::Expression { expression, .. } => lemma_pure_expression_runs_no_effect(sem, expression),
        Statement::VariableDeclaration { declarations, .. } => {
            assert forall|i: int| 0 <= i < declarations@.len() implies match #[trigger] declarations@[i].init {
                Some(init) => !runs_effect(init),
                None => true,
            } by {
                if let Some(init) = declarations@[i].init {
                    lemma_pure_expression_runs_no_effect(sem, init);
                }
            }
        },
        Statement::ClassDeclaration(class) => {
            assert forall|i: int| 0 <= i < class.members@.len() implies !runs_effect(#[trigger] class.members@[i]) by {
                lemma_pure_expression_runs_no_effect(sem, class.members@[i]);
            }
        },
        _ => {},
    }
}

fn all_pure_expressions(sem: &Semantic, es: &Vec<Expression>, Ghost(parent): Ghost<Expression>) -> (r: bool)
    requires
        forall|i: int| 0 <= i < es@.len() ==> decreases_to!(parent => #[trigger] es@[i]),
    ensures
        r == forall|i: int| 0 <= i < es@.len() ==> pure_expression(*sem, #[trigger] es@[i]),
    decreases parent, 0nat,
{
    let mut i: usize = 0;
    while i < es.len()
        invariant
            i <= es@.len(),
            forall|j: int| 0 <= j < es@.len() ==> decreases_to!(parent => #[trigger] es@[j]),
            forall|j: int| 0 <= j < i ==> pure_expression(*sem, #[trigger] es@[j]),
        decreases es@.len() - i,
    {
        if !expression_is_pure(sem, &es[i]) {
            return false;
        }
        i = i + 1;
    }
    true
}

/// Classifies an expression as free of side effects, conservatively.
pub fn expression_is_pure(sem: &Semantic, e: &Expression) -> (r: bool)
    ensures
        r == pure_expression(*sem, *e),
    decreases e, 1nat,
{
    match e {
        Expression::Identifier(id) => sem.resolve(id.reference_id).is_some(),
        Expression::StringLiteral { .. } => true,
        Expression::Function { .. } => true,
        Expression::Parenthesized { expression, .. } => expression_is_pure(sem, expression),
        Expression::Sequence { expressions, .. } => all_pure_expressions(sem, expressions, Ghost(*e)),
        Expression::Other { operands, pure, .. } => *pure && all_pure_expressions(sem, operands, Ghost(*e)),
        _ => false,
    }
}


fn all_pure_statements(sem: &Semantic, ss: &Vec<Statement>, Ghost(parent): Ghost<Statement>) -> (r: bool)
    requires
        forall|i: int| 0 <= i < ss@.len() ==> decreases_to!(parent => #[trigger] ss@[i]),
    ensures
        r == forall|i: int| 0 <= i < ss@.len() ==> pure_statement(*sem, #[trigger] ss@[i]),
    decreases parent, 0nat,
{
    let mut i: usize = 0;
    while i < ss.len()
        invariant
            i <= ss@.len(),
            forall|j: int| 0 <= j < ss@.len() ==> decreases_to!(parent => #[trigger] ss@[j]),
            forall|j: int| 0 <= j < i ==> pure_statement(*sem, #[trigger] ss@[j]),
        decreases ss@.len() - i,
    {
        if has_side_effect(sem, &ss[i]) {
            return false;
        }
        i = i + 1;
    }
    true
}

/// Classifies a top-level statement: `true` unless the statement is known to
/// be free of observable effects. Anything not known to be pure counts as
/// effectful.
pub fn has_side_effect(sem: &Semantic, s: &Statement) -> (r: bool)
    ensures
        r == !pure_statement(*sem, *s),
    decreases s, 1nat,
{
    match s {
        Statement::Expression { expression, .. } => !expression_is_pure(sem, expression),
        Statement::VariableDeclaration { declarations, .. } => {
            let mut i: usize = 0;
            while i < declarations.len()
                invariant
                    i <= declarations@.len(),
                    *s matches Statement::VariableDeclaration { declarations: d, .. } && d == *declarations,
                    forall|j: int| 0 <= j < i ==> match #[trigger] declarations@[j].init {
                        Some(init) => pure_expression(*sem, init),
                        None => true,
                    },
                decreases declarations@.len() - i,
            {
                match &declarations[i].init {
                    Some(init) => {
                        if !expression_is_pure(sem, init) {
                            assert(declarations@[i as int].init == Some(*init));
                            return true;
                        }
                    },
                    None => {},
                }
                i = i + 1;
            }
            false
        },
        Statement::FunctionDeclaration { .. } => false,
        Statement::ClassDeclaration(class) => {
            let mut i: usize = 0;
            while i < class.members.len()
                invariant
                    i <= class.members@.len(),
                    *s == Statement::ClassDeclaration(*class),
                    forall|j: int| 0 <= j < i ==> pure_expression(*sem, #[trigger] class.members@[j]),
                decreases class.members@.len() - i,
            {
                if !expression_is_pure(sem, &class.members[i]) {
                    assert(!pure_expression(*sem, class.members@[i as int]));
                    return true;
                }
                i = i + 1;
            }
            false
        },
        Statement::Import { .. } => false,
        Statement::ForOf { .. } | Statement::Other { .. } => true,
        Statement::Block { body, .. } => !all_pure_statements(sem, body, Ghost(*s)),
    }
}

} // verus!
