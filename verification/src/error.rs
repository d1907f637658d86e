use vstd::prelude::*;

verus! {

/// Why an operation on a layout or an archetype was refused. A refused
/// operation leaves the layout or archetype as it was.
#[derive(Clone, Copy, Debug, PartialEq, Eq, Structural)]
pub enum ArchtypeError {
    /// Two fields of one layout, or of one row, share a type identity.
    DuplicateComponent,
    /// A field type was named that the layout does not declare.
    ComponentNotInLayout,
    /// A row was offered to an archetype that already holds as many rows as
    /// its capacity.
    CapacityExceeded,
    /// A row names declared field types only, but leaves one out or gives a
    /// value whose length is not the declared size.
    MalformedRow,
    /// A column buffer could not be had.
    AllocationFailed,
}

} // verus!
