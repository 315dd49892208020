//! A fixed-capacity sliding window with a contiguous view, and the
//! adaptive-bounds graph state built on it.
pub mod graph;
pub mod window;

pub use graph::{GraphState, Point};
pub use window::{CircularBuffer, CircularBufferIter};
