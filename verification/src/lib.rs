//! An in-memory organization: a single-rooted supervision tree of staff
//! entities, each with a balance of resources.
//!
//! A [`Company`] owns the entities, the tree and the balances. Staff is
//! hired under a supervisor, who gives a tenth of its balance to the new
//! member; staff is fired, and what it owned and whom it supervised pass to
//! its supervisor; resources are transferred between any two members. The
//! CEO is the root of the tree and cannot be fired.
//!
//! - [`company`]: the `Company` and its operations.
//! - [`ledger`]: the mathematical model of a company, its invariant, and
//!   each operation as a function from one ledger to the next.
//! - [`laws`]: what the operations keep: the invariant, and the sum of the
//!   balances.
//! - [`balances`]: the sum of a map of balances.
//! - [`errors`]: the errors that operations return.
//! - [`traits`]: what a staff entity has to offer.

pub mod balances;
pub mod company;
pub mod errors;
pub mod laws;
pub mod ledger;
mod numeric;
pub mod traits;

pub use company::Company;
pub use errors::Error;
pub use traits::StaffEntity;
