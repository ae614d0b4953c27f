//! Function values and their closure records.
use vstd::prelude::*;
use crate::values::GcKey;

verus! {

/// Identity of a function value: the index of its closure record.
/// Two function values are equal exactly when they come from the same
/// evaluation of a function literal.
#[derive(Clone, Copy, Debug, PartialEq, Eq, Structural)]
pub struct Function {
    pub id: usize,
}

impl Function {
    pub fn new(id: usize) -> (r: Function)
        ensures
            r.id == id,
    {
        Function { id }
    }
}

/// What one evaluation of a function literal made: which literal, and the
/// scope frames that were live at that point.
pub struct FunctionImpl {
    pub proto: usize,
    pub closure: Vec<GcKey>,
}

impl FunctionImpl {
    pub fn new(proto: usize, closure: Vec<GcKey>) -> (r: FunctionImpl)
        ensures
            r.proto == proto,
            r.closure@ == closure@,
    {
        FunctionImpl { proto, closure }
    }
}

} // verus!
