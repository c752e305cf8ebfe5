//! Identifiers used across the runtime.
//!
//! Every identifier is a 128-bit value.  Fresh identifiers come from the
//! `uuid` crate; nothing is promised of them except what its source shows.

use vstd::prelude::*;

verus! {

/// Draws a random version-4 UUID from `uuid::Uuid::new_v4` and returns its
/// 128-bit value.  The version and variant bits that `new_v4` always sets
/// make the value non-zero; nothing else is known of it.
#[verifier::external_body]
pub(crate) fn new_v4_u128() -> (r: u128)
    ensures
        r != 0,
{
    uuid::Uuid::new_v4().as_u128()
}

/// Draws a time-ordered version-7 UUID from `uuid::Uuid::now_v7` and returns
/// its 128-bit value.  It depends on the clock and on chance; the version
/// and variant bits that `now_v7` always sets make it non-zero.
#[verifier::external_body]
pub(crate) fn now_v7_u128() -> (r: u128)
    ensures
        r != 0,
{
    uuid::Uuid::now_v7().as_u128()
}

/// Identifier of a dimension (an isolated execution scope).
#[derive(Clone, Copy, Debug, PartialEq, Eq, Structural, Hash, PartialOrd, Ord)]
pub struct DimensionId(pub u128);

/// Identifier of a task.
#[derive(Clone, Copy, Debug, PartialEq, Eq, Structural, Hash, PartialOrd, Ord)]
pub struct TaskId(pub u128);

/// Identifier of a stored artifact (also used for log entries).
#[derive(Clone, Copy, Debug, PartialEq, Eq, Structural, Hash, PartialOrd, Ord)]
pub struct ArtifactId(pub u128);

impl DimensionId {
    /// A fresh random dimension identifier.
    pub fn new() -> (r: Self)
        ensures
            r.0 != 0,
    {
        DimensionId(new_v4_u128())
    }

    /// The raw 128-bit value.
    pub fn value(&self) -> (r: u128)
        ensures
            r == self.0,
    {
        self.0
    }
}

impl TaskId {
    /// A fresh random task identifier.
    pub fn new() -> (r: Self)
        ensures
            r.0 != 0,
    {
        TaskId(new_v4_u128())
    }

    /// The raw 128-bit value.
    pub fn value(&self) -> (r: u128)
        ensures
            r == self.0,
    {
        self.0
    }
}

impl ArtifactId {
    /// A fresh time-ordered artifact identifier.
    pub fn new() -> (r: Self)
        ensures
            r.0 != 0,
    {
        ArtifactId(now_v7_u128())
    }

    /// The raw 128-bit value.
    pub fn value(&self) -> (r: u128)
        ensures
            r == self.0,
    {
        self.0
    }
}

/// A fresh random identifier for graph nodes, ports, links and the like.
pub fn new_uuid() -> (r: u128)
    ensures
        r != 0,
{
    new_v4_u128()
}

/// A fresh time-ordered identifier.
pub fn new_uuid_v7() -> (r: u128)
    ensures
        r != 0,
{
    now_v7_u128()
}

} // verus!
