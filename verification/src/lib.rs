//! Verified core of a Buddhabrot renderer.
//!
//! The renderer samples points of the complex plane, keeps those whose orbit
//! under `z <- z * z + c` escapes late, replays these orbits and counts how
//! often each cell of a grid is visited. This crate holds the control logic
//! of that pipeline and proves it: escape-time evaluation with cycle
//! detection, batch bookkeeping of a sampling worker, the density grid, the
//! aggregation loop and the normalisation of the grid into an image.
//!
//! Complex numbers are carried as IEEE 754 binary64 bit patterns. The
//! arithmetic on them is supplied by the caller as closures; everything that
//! decides something is in here.

pub mod aggregate;
pub mod config;
pub mod escape;
pub mod histogram;
pub mod naming;
pub mod number;
pub mod render;
pub mod replay;
pub mod sampling;
