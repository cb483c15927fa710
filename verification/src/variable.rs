//! Variables of a constraint system.

use vstd::prelude::*;

verus! {

/// Who gets to know the value of a variable.
#[derive(Clone, Copy, Debug, PartialEq, Eq, Structural)]
pub enum Visibility {
    /// Known to the prover alone.
    Private,
    /// Supplied again by whoever checks the statement.
    Public,
}

/// The identity of one value of a circuit: its position in the order of
/// allocation, and its visibility. A variable carries no value.
#[derive(Clone, Copy, Debug, PartialEq, Eq, Structural)]
pub struct Variable {
    pub index: usize,
    pub visibility: Visibility,
}

impl Variable {
    /// The variable that always holds the field's one. Every constraint
    /// system allocates it first, as a public variable.
    pub open spec fn spec_one() -> Variable {
        Variable { index: 0, visibility: Visibility::Public }
    }

    /// The constant-one variable.
    #[verifier::when_used_as_spec(spec_one)]
    pub fn one() -> (r: Variable)
        ensures
            r == Variable::spec_one(),
    {
        Variable { index: 0, visibility: Visibility::Public }
    }

    /// Position in the order of allocation.
    pub fn index(&self) -> (r: usize)
        ensures
            r == self.index,
    {
        self.index
    }

    /// Whether the variable is private or public.
    pub fn visibility(&self) -> (r: Visibility)
        ensures
            r == self.visibility,
    {
        self.visibility
    }
}

} // verus!
