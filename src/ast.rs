use vstd::prelude::*;
use crate::span::Span;

verus! {

/// A use of a name. `reference_id` indexes the references of the module's
/// semantic data.
#[derive(Clone, Debug)]
pub struct IdentifierReference {
    pub name: String,
    pub span: Span,
    pub reference_id: usize,
}

/// A name being declared. `symbol_id` indexes the module's symbols.
#[derive(Clone, Debug)]
pub struct BindingIdentifier {
    pub name: String,
    pub span: Span,
    pub symbol_id: usize,
}

#[derive(Debug)]
pub enum Expression {
    Identifier(IdentifierReference),
    StringLiteral { value: String, span: Span },
    /// `object.property`
    StaticMember { object: Box<Expression>, property: String, span: Span },
    /// `object[property]`
    ComputedMember { object: Box<Expression>, property: Box<Expression>, span: Span },
    Call { callee: Box<Expression>, arguments: Vec<Expression>, span: Span },
    /// `import(source)`
    Import { source: Box<Expression>, span: Span },
    Await { argument: Box<Expression>, span: Span },
    Assignment { left: AssignmentTarget, right: Box<Expression>, span: Span },
    Sequence { expressions: Vec<Expression>, span: Span },
    Parenthesized { expression: Box<Expression>, span: Span },
    /// A function expression: its parameters and body form a function scope.
    Function { params: Vec<BindingIdentifier>, body: Vec<Statement>, span: Span },
    /// Any other expression (a literal, an operator, an object literal), with
    /// its operands.
    Other { operands: Vec<Expression>, pure: bool, span: Span },
}

#[derive(Debug)]
pub enum AssignmentTarget {
    Identifier(IdentifierReference),
    StaticMember { object: Box<Expression>, property: String, span: Span },
    Other(Box<Expression>),
}

#[derive(Clone, Copy, Debug, PartialEq, Eq, Structural)]
pub enum VariableKind {
    Var,
    Let,
    Const,
}

#[derive(Debug)]
pub struct VariableDeclarator {
    pub id: BindingIdentifier,
    pub init: Option<Expression>,
}

/// A class: its name, if any, and its members' values (a method is a
/// function expression).
#[derive(Debug)]
pub struct Class {
    pub id: Option<BindingIdentifier>,
    pub members: Vec<Expression>,
    pub span: Span,
}

/// One specifier of an import declaration: `imported` as `local`.
#[derive(Clone, Debug)]
pub struct ImportSpecifier {
    pub imported: String,
    pub local: BindingIdentifier,
}

#[derive(Debug)]
pub enum Statement {
    Expression { expression: Expression, span: Span },
    VariableDeclaration { kind: VariableKind, declarations: Vec<VariableDeclarator>, span: Span },
    FunctionDeclaration { id: BindingIdentifier, params: Vec<BindingIdentifier>, body: Vec<Statement>, span: Span },
    ClassDeclaration(Class),
    Import { specifiers: Vec<ImportSpecifier>, source: String, source_span: Span, span: Span },
    ForOf { is_await: bool, left: Expression, right: Expression, body: Box<Statement>, span: Span },
    Block { body: Vec<Statement>, span: Span },
    /// Any other statement (`if`, `while`, `return`, `try`, ...), with the
    /// expressions it evaluates and the statements nested in it.
    Other { expressions: Vec<Expression>, body: Vec<Statement>, span: Span },
}

#[derive(Debug)]
pub struct Program {
    pub hashbang: Option<Span>,
    pub body: Vec<Statement>,
}

} // verus!
