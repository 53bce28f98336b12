//! Client-side logic for a small release-pull tool: a persisted
//! configuration, a wire format for the release manifest, local path
//! resolution, and the request/download state machine that drives a pull.
//!
//! All network and filesystem work is left to the surrounding binary; this
//! crate decides what to request, where to write, and in what order.

pub mod codec;
pub mod config;
pub mod encode;
pub mod paths;
pub mod pull;
pub mod strings;
