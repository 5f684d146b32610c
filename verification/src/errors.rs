//! The errors that operations on a company return.

use vstd::prelude::*;

verus! {

/// What can go wrong when the staff or the resources of a company are changed.
#[derive(Debug)]
pub enum Error<ID, R> {
    /// The balance of `staff_id` holds `available`, which is less than `required`.
    InsufficientResourcesError { staff_id: ID, required: R, available: R },
    /// No staff entity with this id is in the company.
    StaffNotFound { staff_id: ID },
    /// A staff entity with this id is in the company already.
    StaffAlreadyExists { staff_id: ID },
    /// The staff entity may not carry out the operation.
    StaffHasNoPermission { staff_id: ID },
    /// The CEO cannot be fired.
    CannotFireCeo,
    /// `supervisor_id` cannot supervise `staff_id`: it stands below it in the hierarchy.
    HierarchyConflict { staff_id: ID, supervisor_id: ID },
}

} // verus!
