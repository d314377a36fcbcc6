use vstd::prelude::*;

verus! {

/// Why an operation of this library did not produce a value.
#[derive(Clone, Copy, Debug, PartialEq, Eq, Structural)]
pub enum Error {
    /// A lookup found no row.
    NotFound,
    /// A value handed in does not have the expected shape.
    InvalidData,
    /// The row store cannot take the change.
    Store,
}

} // verus!
