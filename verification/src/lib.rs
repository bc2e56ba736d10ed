//! Per-frame draw batching and GPU buffer synchronization for a small
//! real-time renderer: composing transforms over a scene graph, deduplicating
//! draw work by drawable identity, and sequencing buffer writes before draws.
//!
//! - `identify`: process-wide identifiers for loaded resources
//! - `math`: geometry values as opaque IEEE-754 bit patterns
//! - `instance`, `model`, `scene`: instance records, drawables, the scene graph
//! - `batch`: per-drawable staging buffers and the ordered batch table
//! - `submit`: the depth-first traversal that stages scene content
//! - `render_pass`: the frame orchestrator, from submissions to draw calls
//! - `write_protocol`: the asynchronous buffer-write decisions
//! - `laws`: the cross-cutting guarantees, proved over all of the above

use vstd::prelude::*;

pub mod batch;
pub mod identify;
pub mod instance;
pub mod laws;
pub mod math;
pub mod model;
pub mod render_pass;
pub mod scene;
pub mod submit;
pub mod write_protocol;

verus! {

} // verus!
