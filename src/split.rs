//! How a camera's stream is cut into chunks.
use vstd::prelude::*;

verus! {

/// Cuts the stream of one camera, between two times, into chunks of a fixed
/// length; the chunks form a named chunk set.
#[derive(Debug, PartialEq, Clone)]
pub struct SplitStatement {
    /// The camera whose stream is cut.
    pub camera_name: String,
    /// Start of the stream, in seconds.
    pub start_time: u64,
    /// End of the stream, in seconds; a time in the future marks a query that
    /// keeps releasing as new chunks arrive.
    pub end_time: u64,
    /// Length of each chunk, in milliseconds.
    pub chunk_length_ms: u64,
    /// Name of the chunk set produced.
    pub output_name: String,
}

impl SplitStatement {
    /// A split statement is meaningful when its chunks have a length and its
    /// end does not come before its start.
    pub open spec fn wf(&self) -> bool {
        self.chunk_length_ms > 0 && self.start_time <= self.end_time
    }

    /// An equal copy of the statement.
    pub fn duplicate(&self) -> (r: SplitStatement)
        ensures
            r == *self,
    {
        SplitStatement {
            camera_name: self.camera_name.clone(),
            start_time: self.start_time,
            end_time: self.end_time,
            chunk_length_ms: self.chunk_length_ms,
            output_name: self.output_name.clone(),
        }
    }
}

} // verus!
