//! A progressive path-tracing accumulation engine.
//!
//! The crate covers the host side of a GPU path tracer: loading a triangle
//! scene into the flat buffers a compute kernel indexes, the accumulation
//! state machine that drives one dispatch per displayed frame, and the exact
//! byte layout of every record shared with the kernel.

pub mod color;
pub mod layout;
pub mod model;
pub mod pt;
