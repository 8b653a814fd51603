//! A metrics-export pipeline: decodes metric snapshots received over a local
//! IPC channel, converts them to an external wire format (raw or Monarch),
//! and decides how each formatted payload is delivered to a configured sink.

use vstd::prelude::*;

pub mod decode;
pub mod handler;
pub mod json;
pub mod model;
pub mod monarch;
pub mod order;
pub mod sink;
pub mod text;
pub mod time;
pub mod wire;

verus! {

/// The table of metric type codes: `1..=9` select both the value type and
/// the stream classification of a metric.
pub open spec fn valid_type_code(code: int) -> bool {
    1 <= code <= 9
}

} // verus!
