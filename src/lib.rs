//! Reference-frame and ephemeris data engine: a validated, read-only view over a
//! binary store of ephemeris and orientation records, hash-indexed lookup tables,
//! and the frame-tree resolver that finds the common ancestor of two frames.
pub mod bytes;
pub mod common;
pub mod constants;
pub mod context;
pub mod ephemeris;
pub mod errors;
pub mod evaluator;
pub mod frame;
pub mod lut;
pub mod query_ephem;
pub mod tpc;
