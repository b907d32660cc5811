use vstd::prelude::*;

verus! {

/// The ways an operation on the ledger can fail.
///
/// No operation partially mutates state before failing: a failed call
/// leaves the ledger exactly as it was.
#[derive(Clone, Copy, Debug, PartialEq, Eq, Structural)]
pub enum InventoryError {
    /// No product group exists under the given name.
    NotFoundName,
    /// The group exists, but holds no product with the given id.
    NotFoundId,
    /// A sale asked for more units than the product has in stock.
    InsufficientStock,
}

impl InventoryError {
    /// A short description of the failure, for display at the edge.
    pub fn message(&self) -> (r: &'static str)
        ensures
            *self is NotFoundName ==> r@ == "no product group with that name"@,
            *self is NotFoundId ==> r@ == "no product with that id in the group"@,
            *self is InsufficientStock ==> r@ == "not enough stock for the sale"@,
    {
        match self {
            InventoryError::NotFoundName => "no product group with that name",
            InventoryError::NotFoundId => "no product with that id in the group",
            InventoryError::InsufficientStock => "not enough stock for the sale",
        }
    }
}

} // verus!
