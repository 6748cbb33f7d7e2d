use vstd::prelude::*;

verus! {

/// The kind of record that a lookup failed to find.
#[derive(Clone, Copy, Debug, PartialEq, Eq, Structural)]
pub enum Entity {
    Branch,
    Product,
    Specification,
    Actor,
    /// A specification without any ledger history has no price to cost with.
    Price,
}

/// The request field that failed validation.
#[derive(Clone, Copy, Debug, PartialEq, Eq, Structural)]
pub enum Field {
    Quantity,
    UnitPrice,
    SmallestUnit,
    Price,
    FlowType,
    /// An identity that does not read as one.
    Identifier,
    /// A name already taken in its branch.
    Name,
}

/// Why a unit of work was refused.
#[derive(Clone, Copy, Debug, PartialEq, Eq, Structural)]
pub enum CoreError {
    NotFound(Entity),
    ValidationFailed(Field),
    PersistenceFailure,
    ArithmeticFailure,
}

} // verus!
