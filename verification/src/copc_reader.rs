//! Cloud Optimized Point Cloud: the octree hierarchy of a LAZ file, and which
//! of its point chunks a query reads.

pub mod hierarchy;
pub mod octree;
pub mod points;
pub mod query;
pub mod reader;
pub mod selection;
pub mod sorting;

use vstd::prelude::*;

verus! {

/// What stops a file from being read as COPC.
#[derive(Clone, Copy, Debug, PartialEq, Eq, Structural)]
pub enum CopcError {
    /// The bytes end before the record that they should hold.
    UnexpectedEof,
    /// The variable length records reach past the start of the point data.
    OffsetToPointDataTooSmall(u32),
    /// The LasZip record cannot be read.
    LasZip,
    /// No COPC info record is present.
    CopcInfoVlrNotFound,
    /// No hierarchy record is present.
    EptHierarchyVlrNotFound,
    /// No LasZip record is present.
    LasZipVlrNotFound,
    /// The resolution, given by its bits, is not a positive normal number.
    InvalidResolution(u64),
}

} // verus!
