//! Tip pooling for a collaborative project: contributions flow into a shared
//! pool, contributors earn activity points by completing tasks, and the pool
//! is paid out in proportion to the points held.
use vstd::prelude::*;

pub mod account;
pub mod allocation;
pub mod laws;
pub mod ledger;
pub mod project;
pub mod scenarios;

verus! {

/// Identifier of a task in the registry.
#[derive(PartialEq, Eq, Structural, Debug, Clone, Copy)]
pub struct TaskId(pub u64);

/// Why an operation on a project was refused. A refused operation leaves the
/// project as it was.
#[derive(PartialEq, Eq, Structural, Debug, Clone, Copy)]
pub enum TipError {
    /// A completion named a task that was never added.
    TaskNotFound,
    /// A share was asked for an identity with no contributor record.
    AccountNotFound,
    /// No activity point has been earned yet, so no share can be computed.
    DivisionByZero,
    /// A tip of zero.
    InvalidAmount,
    /// A balance or point count would exceed its fixed width.
    Overflow,
}

} // verus!
