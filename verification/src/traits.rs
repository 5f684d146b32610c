//! The trait that a staff entity implements to be kept in a company.

use std::hash::Hash;
use vstd::prelude::*;

verus! {

/// A staff entity: a value with an identifier. A company stores the entity
/// under the identifier it reports when it joins and never looks at
/// anything else in it.
pub trait StaffEntity {
    /// The type of the identifier. A [`crate::Company`] keeps entities
    /// whose identifier is a `u128`: 128 bits, wide enough to hold a UUID.
    type ID: Eq + Hash;

    /// Returns the unique identifier of the staff entity in its company.
    fn get_id(&self) -> Self::ID;
}

} // verus!
