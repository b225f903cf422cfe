//! The error taxonomy of the store: which kind of resource an operation
//! failed on, and whether it was missing or in conflict.

use vstd::prelude::*;

verus! {

/// The kinds of record that the store keeps.
#[derive(Clone, Copy, Debug, PartialEq, Eq, Structural)]
pub enum BencherResource {
    Project,
    Branch,
    Reference,
    Version,
    Testbed,
    Measure,
    Threshold,
    Model,
}

/// Why a store operation failed.
#[derive(Clone, Copy, Debug, PartialEq, Eq, Structural)]
pub enum ApiError {
    /// A record that the operation refers to does not exist.
    NotFound(BencherResource),
    /// The operation would break a uniqueness or reference constraint of
    /// the table of this resource.
    Conflict(BencherResource),
}

impl ApiError {
    /// The resource that the failure is about.
    pub fn resource(&self) -> (r: BencherResource)
        ensures
            r == match *self {
                ApiError::NotFound(k) => k,
                ApiError::Conflict(k) => k,
            },
    {
        match self {
            ApiError::NotFound(k) => *k,
            ApiError::Conflict(k) => *k,
        }
    }

    /// Whether the failure reports a missing record.
    pub fn is_not_found(&self) -> (b: bool)
        ensures
            b == (*self is NotFound),
    {
        match self {
            ApiError::NotFound(_) => true,
            ApiError::Conflict(_) => false,
        }
    }
}

} // verus!
