//! Reproducible sampling of distinct indices from a contiguous range.
//!
//! The crate has two layers:
//!
//! * [`source`] — the contract a caller-supplied random-bit source must
//!   meet, together with a deterministic tape-backed source for replaying
//!   a fixed sequence of draws.
//! * [`index`] — a uniform index generator whose internal arithmetic width
//!   is chosen from the bound's value alone, and Floyd's algorithm for
//!   drawing a fixed number of pairwise-distinct indices from `0..len`
//!   in a single pass.

pub mod index;
pub mod source;
