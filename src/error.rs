//! The ways in which binding and analysis fail.
use vstd::prelude::*;

verus! {

/// Why a query could not be bound or analysed.
#[derive(Debug, PartialEq, Eq, Clone)]
pub enum PqlError {
    /// A query names a table that no process statement produces.
    UnknownTable(String),
    /// A process statement reads a chunk set that no split statement produces.
    UnknownChunkSet(String),
    /// No privacy policy is given for a camera.
    UnknownPolicy(String),
    /// The camera's policy is a mask policy, which the analysis does not support.
    MaskPolicyNotImplemented,
    /// The split statement producing this chunk set has a chunk length of zero,
    /// or ends before it starts.
    InvalidSplit(String),
    /// A table list to analyse is empty.
    EmptyTableList,
    /// A node that the analysis does not handle stands where a table is expected.
    UnsupportedNode,
    /// A qualifier other than a grouping, a limit or a time window.
    UnsupportedQualifier,
    /// An output expression other than a column, a user function or an aggregation.
    UnsupportedExpression,
    /// An output column that the table does not have.
    UnknownColumn(String),
    /// A column binned by time that does not hold a range.
    BinOnNonRange(String),
    /// A bin of zero width, named by its alias.
    InvalidBinSize(String),
    /// An aggregation that is recognised but not implemented (variance, standard deviation).
    UnimplementedAggregation(String),
    /// An aggregation function that is not recognised.
    UnsupportedAggregation(String),
    /// A bound does not fit the integer types used to hold it.
    Overflow,
}

} // verus!
