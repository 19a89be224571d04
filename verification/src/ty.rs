//! Value types of the intermediate representation.

use vstd::prelude::*;

verus! {

/// A value type of the IR. Only integer types are modeled; each type has a
/// fixed serialized width in addressable units, consumed by the address
/// arithmetic of the lowering passes.
#[derive(Clone, Copy, Debug, PartialEq, Eq, Structural)]
pub enum Ty {
    I32,
    I64,
}

impl Ty {
    /// The serialized width of a value of this type, in addressable units.
    pub open spec fn spec_size(&self) -> i32 {
        match self {
            Ty::I32 => 4,
            Ty::I64 => 8,
        }
    }

    /// The serialized width of a value of this type, in addressable units.
    #[verifier::when_used_as_spec(spec_size)]
    pub fn size(&self) -> (r: i32)
        ensures
            r == self.spec_size(),
    {
        match self {
            Ty::I32 => 4,
            Ty::I64 => 8,
        }
    }
}

} // verus!
