use vstd::prelude::*;

verus! {

/// Errors shared by the programs of this family.
#[derive(Clone, Copy, Debug)]
#[non_exhaustive]
pub enum NeaError {
    I2C,
    Unknown,
    IntegerOverflow,
    InterfaceError,
}

} // verus!
