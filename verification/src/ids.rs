//! Typed identifiers and timestamps shared by every table of the store.

use vstd::prelude::*;

verus! {

/// Row identifier of a project.
#[derive(Clone, Copy, Debug, PartialEq, Eq, Structural)]
pub struct ProjectId(pub i32);

/// Row identifier of a branch.
#[derive(Clone, Copy, Debug, PartialEq, Eq, Structural)]
pub struct BranchId(pub i32);

/// Row identifier of a testbed.
#[derive(Clone, Copy, Debug, PartialEq, Eq, Structural)]
pub struct TestbedId(pub i32);

/// Row identifier of a measure.
#[derive(Clone, Copy, Debug, PartialEq, Eq, Structural)]
pub struct MeasureId(pub i32);

/// Row identifier of a threshold.
#[derive(Clone, Copy, Debug, PartialEq, Eq, Structural)]
pub struct ThresholdId(pub i32);

/// Row identifier of a model.
#[derive(Clone, Copy, Debug, PartialEq, Eq, Structural)]
pub struct ModelId(pub i32);

/// Row identifier of a branch reference (the head a report was taken at).
#[derive(Clone, Copy, Debug, PartialEq, Eq, Structural)]
pub struct ReferenceId(pub i32);

/// Row identifier of a version of a branch.
#[derive(Clone, Copy, Debug, PartialEq, Eq, Structural)]
pub struct VersionId(pub i32);

/// Public, stable identifier of a project.
#[derive(Clone, Copy, Debug, PartialEq, Eq, Structural)]
pub struct ProjectUuid(pub u128);

/// Public, stable identifier of a branch.
#[derive(Clone, Copy, Debug, PartialEq, Eq, Structural)]
pub struct BranchUuid(pub u128);

/// Public, stable identifier of a testbed.
#[derive(Clone, Copy, Debug, PartialEq, Eq, Structural)]
pub struct TestbedUuid(pub u128);

/// Public, stable identifier of a measure.
#[derive(Clone, Copy, Debug, PartialEq, Eq, Structural)]
pub struct MeasureUuid(pub u128);

/// Public, stable identifier of a threshold.
#[derive(Clone, Copy, Debug, PartialEq, Eq, Structural)]
pub struct ThresholdUuid(pub u128);

/// Public, stable identifier of a model.
#[derive(Clone, Copy, Debug, PartialEq, Eq, Structural)]
pub struct ModelUuid(pub u128);

/// A point in time, in whole seconds since the Unix epoch.
#[derive(Clone, Copy, Debug, PartialEq, Eq, Structural)]
pub struct DateTime(pub i64);

/// The row identifier that a table hands to the row stored at `index`:
/// rows are numbered from one in the order in which they were inserted.
pub open spec fn id_at(index: int) -> int {
    index + 1
}

/// The position in its table of the row with identifier `id`.
pub open spec fn index_of(id: int) -> int {
    id - 1
}

/// Largest number of rows that a table can hold: every row needs an
/// identifier of its own.
pub const MAX_ROWS: usize = 2147483647;

/// Turns a position in a table into the identifier of the row stored there.
pub fn row_id(index: usize) -> (id: i32)
    requires
        index < MAX_ROWS,
    ensures
        id == id_at(index as int),
        id >= 1,
{
    let n: i32 = index as i32;
    n + 1
}

/// Turns a row identifier into a position, when it can denote one in a
/// table of `len` rows.
pub fn row_index(id: i32, len: usize) -> (index: Option<usize>)
    ensures
        index is Some <==> 1 <= id <= len,
        index matches Some(i) ==> i == index_of(id as int),
{
    if id >= 1 && ((id - 1) as usize) < len {
        Some((id - 1) as usize)
    } else {
        None
    }
}

} // verus!
