//! What the table says of a variable.

use vstd::prelude::*;

use crate::hir::{Function, FunctionId, Hir, TypeForm, VarKind, Variable, VariableId};

verus! {

/// The kind of a variable.
pub open spec fn kind_of(hir: Hir, var: VariableId) -> VarKind {
    hir.variables@[var as int].kind
}

/// The variable is of type `address` or `address payable`.
pub open spec fn is_address(hir: Hir, var: VariableId) -> bool {
    hir.variables@[var as int].ty is Address
}

/// The variable is a state variable of an address type.
pub open spec fn address_state_var(hir: Hir, var: VariableId) -> bool {
    kind_of(hir, var) is State && is_address(hir, var)
}

/// The variable is of an address type, and not state.
pub open spec fn address_local(hir: Hir, var: VariableId) -> bool {
    !(kind_of(hir, var) is State) && is_address(hir, var)
}

impl Hir {
    /// The table entry of a variable.
    pub fn variable(&self, var: VariableId) -> (entry: &Variable)
        requires
            var < self.variables@.len(),
        ensures
            *entry == self.variables@[var as int],
    {
        &self.variables[var]
    }

    /// The table entry of a function.
    pub fn function(&self, function: FunctionId) -> (entry: &Function)
        requires
            function < self.functions@.len(),
        ensures
            *entry == self.functions@[function as int],
    {
        &self.functions[function]
    }
}

/// Access-control authorities are state variables of an address type.
pub fn is_address_state_var(hir: &Hir, var: VariableId) -> (result: bool)
    requires
        var < hir.variables@.len(),
    ensures
        result == address_state_var(*hir, var),
{
    let entry = hir.variable(var);
    entry.kind == VarKind::State && entry.ty == TypeForm::Address
}

/// Local address values can carry taint, but are not themselves tracked state.
pub fn is_address_local(hir: &Hir, var: VariableId) -> (result: bool)
    requires
        var < hir.variables@.len(),
    ensures
        result == address_local(*hir, var),
{
    let entry = hir.variable(var);
    entry.kind != VarKind::State && entry.ty == TypeForm::Address
}

} // verus!
