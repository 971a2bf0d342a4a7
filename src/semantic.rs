use vstd::prelude::*;
use crate::ast::Expression;

verus! {

/// The symbol table and scope tree of a module: the scope that declares each
/// symbol, whether it is a `const` binding, and the symbol, if any, that each
/// reference resolves to.
#[derive(Clone, Debug)]
pub struct Semantic {
    pub root_scope: usize,
    pub symbol_scopes: Vec<usize>,
    pub symbol_is_const: Vec<bool>,
    pub reference_symbols: Vec<Option<usize>>,
}

impl Semantic {
    /// The symbol a reference resolves to; a reference unknown to the table
    /// resolves to none.
    pub open spec fn resolved(self, reference_id: usize) -> Option<usize> {
        if reference_id < self.reference_symbols@.len() {
            self.reference_symbols@[reference_id as int]
        } else {
            None
        }
    }

    /// The symbol that `e` resolves to, when `e` is a name.
    pub open spec fn resolved_name(self, e: Expression) -> Option<usize> {
        match e {
            Expression::Identifier(id) => self.resolved(id.reference_id),
            _ => None,
        }
    }

    pub open spec fn spec_is_root_symbol(self, symbol_id: usize) -> bool {
        symbol_id < self.symbol_scopes@.len() && self.symbol_scopes@[symbol_id as int] == self.root_scope
    }

    pub open spec fn spec_is_const_symbol(self, symbol_id: usize) -> bool {
        symbol_id < self.symbol_is_const@.len() && self.symbol_is_const@[symbol_id as int]
    }

    pub open spec fn root_symbol_of(self, reference_id: usize) -> Option<usize> {
        match self.resolved(reference_id) {
            Some(s) => if self.spec_is_root_symbol(s) {
                Some(s)
            } else {
                None
            },
            None => None,
        }
    }

    pub fn resolve(&self, reference_id: usize) -> (r: Option<usize>)
        ensures
            r == self.resolved(reference_id),
    {
        if reference_id < self.reference_symbols.len() {
            self.reference_symbols[reference_id]
        } else {
            None
        }
    }

    pub fn is_root_symbol(&self, symbol_id: usize) -> (r: bool)
        ensures
            r == self.spec_is_root_symbol(symbol_id),
    {
        symbol_id < self.symbol_scopes.len() && self.symbol_scopes[symbol_id] == self.root_scope
    }

    pub fn is_const_symbol(&self, symbol_id: usize) -> (r: bool)
        ensures
            r == self.spec_is_const_symbol(symbol_id),
    {
        symbol_id < self.symbol_is_const.len() && self.symbol_is_const[symbol_id]
    }

    /// The module-level symbol a reference resolves to: none when it is
    /// unresolved or resolves to a binding of a nested scope.
    pub fn resolve_to_root_symbol(&self, reference_id: usize) -> (r: Option<usize>)
        ensures
            r == self.root_symbol_of(reference_id),
    {
        match self.resolve(reference_id) {
            Some(s) => if self.is_root_symbol(s) {
                Some(s)
            } else {
                None
            },
            None => None,
        }
    }

    /// Whether a reference has no binding anywhere in the module.
    pub fn is_global_reference(&self, reference_id: usize) -> (r: bool)
        ensures
            r == (self.resolved(reference_id) is None),
    {
        self.resolve(reference_id).is_none()
    }
}

} // verus!
