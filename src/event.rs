//! The unit that flows through a pipeline.
use vstd::prelude::*;
use crate::value::{LineValue, Value};

verus! {

/// One event of the stream: its id, its ingest time in nanoseconds, its
/// metadata, its payload with the buffers it came from, a batch flag and an
/// optional routing tag.
#[derive(Debug, PartialEq)]
pub struct Event {
    pub id: u64,
    pub ingest_ns: u64,
    pub meta: Value,
    pub value: LineValue,
    pub is_batch: bool,
    pub kind: Option<String>,
}

} // verus!
